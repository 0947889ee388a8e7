use arc_replacer::cpp_vector::CppVector;

#[test]
fn len_is_pointer_difference() {
    let elems: Vec<u32> = vec![7, 8, 9, 10];
    let v = CppVector::new(0x1000, 4, elems);
    assert_eq!(v.len(), 4);
}

#[test]
fn len_empty() {
    let elems: Vec<u64> = Vec::new();
    let v = CppVector::new(0x2000, 8, elems);
    assert_eq!(v.len(), 0);
}

#[test]
fn iteration_yields_all_in_address_order() {
    let elems: Vec<u16> = vec![11, 22, 33];
    let v = CppVector::new(0x100, 2, elems);
    let mut it = v.iter();
    let mut seen: Vec<u16> = Vec::new();
    loop {
        match it.next() {
            Some(x) => seen.push(*x),
            None => break,
        }
    }
    assert_eq!(seen, vec![11, 22, 33]);
    // Exhausted cursor stays exhausted.
    assert!(it.next().is_none());
}

#[test]
fn count_matches_len() {
    let elems: Vec<u8> = vec![1, 2, 3, 4, 5];
    let v = CppVector::new(0, 1, elems);
    assert_eq!(v.count_elements(), 5);
    assert_eq!(v.count_elements(), v.len());
}

#[test]
fn get_and_set_in_place() {
    let elems: Vec<u32> = vec![5, 6, 7];
    let mut v = CppVector::new(0x40, 4, elems);
    assert_eq!(*v.get(1), 6);
    v.set(1, 60);
    assert_eq!(*v.get(0), 5);
    assert_eq!(*v.get(1), 60);
    assert_eq!(*v.get(2), 7);
    assert_eq!(v.len(), 3);
}

#[test]
fn mut_cursor_walks_every_index() {
    let elems: Vec<u32> = vec![1, 2, 3];
    let mut v = CppVector::new(0x80, 4, elems);
    let mut it = v.iter_mut();
    let mut indices: Vec<usize> = Vec::new();
    loop {
        match it.next() {
            Some(i) => indices.push(i),
            None => break,
        }
    }
    assert_eq!(indices, vec![0, 1, 2]);
    for i in indices {
        let doubled = *v.get(i) * 2;
        v.set(i, doubled);
    }
    assert_eq!(*v.get(0), 2);
    assert_eq!(*v.get(1), 4);
    assert_eq!(*v.get(2), 6);
}
