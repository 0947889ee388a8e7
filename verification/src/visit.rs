use vstd::prelude::*;

verus! {

use crate::hashing::hash40_of;
use crate::hashing::hash40_bytes;

// Byte values the normalization rules speak of.
pub const SEMICOLON: u8 = 0x3b;

pub const COLON: u8 = 0x3a;

pub const PLUS: u8 = 0x2b;

pub const DOT: u8 = 0x2e;

pub const SLASH: u8 = 0x2f;

// ---------------------------------------------------------------------------
// First and last occurrence of a byte
// ---------------------------------------------------------------------------

/// Byte `c` occurs in `s`.
pub open spec fn contains_byte(s: Seq<u8>, c: u8) -> bool {
    exists|i: int| 0 <= i < s.len() && s[i] == c
}

/// `i` is the first occurrence of `c` in `s`.
pub open spec fn is_first_byte(s: Seq<u8>, c: u8, i: int) -> bool {
    &&& 0 <= i < s.len()
    &&& s[i] == c
    &&& forall|j: int| 0 <= j < i ==> s[j] != c
}

/// The position of the first occurrence of `c` (meaningful only when
/// `contains_byte`).
pub open spec fn first_byte(s: Seq<u8>, c: u8) -> int {
    choose|i: int| is_first_byte(s, c, i)
}

/// `i` is the last occurrence of `c` in `s`.
pub open spec fn is_last_byte(s: Seq<u8>, c: u8, i: int) -> bool {
    &&& 0 <= i < s.len()
    &&& s[i] == c
    &&& forall|j: int| i < j < s.len() ==> s[j] != c
}

/// The position of the last occurrence of `c` (meaningful only when
/// `contains_byte`).
pub open spec fn last_byte(s: Seq<u8>, c: u8) -> int {
    choose|i: int| is_last_byte(s, c, i)
}

proof fn lemma_exists_first_byte(s: Seq<u8>, c: u8, w: int)
    requires
        0 <= w < s.len(),
        s[w] == c,
    ensures
        exists|i: int| is_first_byte(s, c, i),
    decreases w,
{
    if forall|j: int| 0 <= j < w ==> s[j] != c {
        assert(is_first_byte(s, c, w));
    } else {
        let j = choose|j: int| 0 <= j < w && s[j] == c;
        lemma_exists_first_byte(s, c, j);
    }
}

/// When `c` occurs, `first_byte` is its first occurrence.
pub proof fn lemma_first_byte_is_first(s: Seq<u8>, c: u8)
    requires
        contains_byte(s, c),
    ensures
        is_first_byte(s, c, first_byte(s, c)),
{
    let w = choose|i: int| 0 <= i < s.len() && s[i] == c;
    lemma_exists_first_byte(s, c, w);
}

proof fn lemma_exists_last_byte(s: Seq<u8>, c: u8, w: int)
    requires
        0 <= w < s.len(),
        s[w] == c,
    ensures
        exists|i: int| is_last_byte(s, c, i),
    decreases s.len() - w,
{
    if forall|j: int| w < j < s.len() ==> s[j] != c {
        assert(is_last_byte(s, c, w));
    } else {
        let j = choose|j: int| w < j < s.len() && s[j] == c;
        lemma_exists_last_byte(s, c, j);
    }
}

/// When `c` occurs, `last_byte` is its last occurrence.
pub proof fn lemma_last_byte_is_last(s: Seq<u8>, c: u8)
    requires
        contains_byte(s, c),
    ensures
        is_last_byte(s, c, last_byte(s, c)),
{
    let w = choose|i: int| 0 <= i < s.len() && s[i] == c;
    lemma_exists_last_byte(s, c, w);
}

/// Find the first occurrence of byte `c` in `v`.
pub fn find_first_byte(v: &Vec<u8>, c: u8) -> (r: Option<usize>)
    ensures
        match r {
            Some(i) => is_first_byte(v@, c, i as int),
            None => !contains_byte(v@, c),
        },
{
    let n = v.len();
    let mut i: usize = 0;
    while i < n
        invariant
            n == v@.len(),
            i <= n,
            forall|j: int| 0 <= j < i ==> v@[j] != c,
        decreases n - i,
    {
        if *v.get(i).unwrap() == c {
            return Some(i);
        }
        i = i + 1;
    }
    None
}

/// Find the last occurrence of byte `c` in `v`.
pub fn find_last_byte(v: &Vec<u8>, c: u8) -> (r: Option<usize>)
    ensures
        match r {
            Some(i) => is_last_byte(v@, c, i as int),
            None => !contains_byte(v@, c),
        },
{
    let n = v.len();
    let mut best: Option<usize> = None;
    let mut i: usize = 0;
    while i < n
        invariant
            n == v@.len(),
            i <= n,
            match best {
                Some(b) => b < i && v@[b as int] == c && forall|j: int|
                    b < j < i ==> v@[j] != c,
                None => forall|j: int| 0 <= j < i ==> v@[j] != c,
            },
        decreases n - i,
    {
        if *v.get(i).unwrap() == c {
            best = Some(i);
        }
        i = i + 1;
    }
    best
}

// ---------------------------------------------------------------------------
// Path normalization
// ---------------------------------------------------------------------------

/// Every path separator-escape byte `;` replaced by `:` (the archive's own
/// separator, which the on-disk path cannot carry).
pub open spec fn replace_semicolons(s: Seq<u8>) -> Seq<u8> {
    s.map(|i: int, b: u8| if b == SEMICOLON { COLON } else { b })
}

/// The regional marker, `+` up to but not including the first `.`, removed.
pub open spec fn strip_region_marker(s: Seq<u8>) -> Seq<u8> {
    if contains_byte(s, PLUS) {
        s.subrange(0, first_byte(s, PLUS)) + s.skip(first_byte(s, DOT))
    } else {
        s
    }
}

/// A path with a regional marker must also carry a `.` at or after the
/// marker; the marker strip is undefined otherwise.
pub open spec fn region_marker_ok(s: Seq<u8>) -> bool {
    contains_byte(s, PLUS) ==> contains_byte(s, DOT) && first_byte(s, PLUS) <= first_byte(s, DOT)
}

/// A trailing `mp4` rewritten to `webm`, the container the engine streams.
pub open spec fn mp4_to_webm(s: Seq<u8>) -> Seq<u8> {
    if s.len() >= 3 && s[s.len() - 3] == 0x6d && s[s.len() - 2] == 0x70 && s[s.len() - 1]
        == 0x34 {
        s.subrange(0, s.len() - 3) + seq![0x77u8, 0x65, 0x62, 0x6d]
    } else {
        s
    }
}

/// The archive-relative form of an on-disk replacement path: separator escapes
/// restored, the regional marker removed, and the video container extension
/// rewritten. This normalization must match the engine's own exactly, or hash
/// lookups silently miss.
pub open spec fn normalized_path(s: Seq<u8>) -> Seq<u8> {
    mp4_to_webm(strip_region_marker(replace_semicolons(s)))
}

/// Every byte is ASCII, so the path converts to the engine's string form.
pub open spec fn all_ascii(s: Seq<u8>) -> bool {
    forall|i: int| 0 <= i < s.len() ==> s[i] < 0x80
}

// ---------------------------------------------------------------------------
// Regions
// ---------------------------------------------------------------------------

/// The localization variant a regional marker selects.
#[derive(Clone, Copy, PartialEq, Eq, Structural, Debug)]
pub enum Region {
    Japanese,
    UsEnglish,
    UsFrench,
    UsSpanish,
    EuEnglish,
    EuFrench,
    EuSpanish,
    EuGerman,
    EuDutch,
    EuItalian,
    EuRussian,
    Korean,
    ChinaChinese,
    TaiwanChinese,
}

/// The region a five-byte marker code selects; an unknown code defaults to
/// `UsEnglish`.
pub open spec fn region_of_code(b0: u8, b1: u8, b2: u8, b3: u8, b4: u8) -> Region {
    if b0 == 0x6a && b1 == 0x70 && b2 == 0x5f && b3 == 0x6a && b4 == 0x61 {
        Region::Japanese
    } else if b0 == 0x75 && b1 == 0x73 && b2 == 0x5f && b3 == 0x65 && b4 == 0x6e {
        Region::UsEnglish
    } else if b0 == 0x75 && b1 == 0x73 && b2 == 0x5f && b3 == 0x66 && b4 == 0x72 {
        Region::UsFrench
    } else if b0 == 0x75 && b1 == 0x73 && b2 == 0x5f && b3 == 0x65 && b4 == 0x73 {
        Region::UsSpanish
    } else if b0 == 0x65 && b1 == 0x75 && b2 == 0x5f && b3 == 0x65 && b4 == 0x6e {
        Region::EuEnglish
    } else if b0 == 0x65 && b1 == 0x75 && b2 == 0x5f && b3 == 0x66 && b4 == 0x72 {
        Region::EuFrench
    } else if b0 == 0x65 && b1 == 0x75 && b2 == 0x5f && b3 == 0x65 && b4 == 0x73 {
        Region::EuSpanish
    } else if b0 == 0x65 && b1 == 0x75 && b2 == 0x5f && b3 == 0x64 && b4 == 0x65 {
        Region::EuGerman
    } else if b0 == 0x65 && b1 == 0x75 && b2 == 0x5f && b3 == 0x6e && b4 == 0x6c {
        Region::EuDutch
    } else if b0 == 0x65 && b1 == 0x75 && b2 == 0x5f && b3 == 0x69 && b4 == 0x74 {
        Region::EuItalian
    } else if b0 == 0x65 && b1 == 0x75 && b2 == 0x5f && b3 == 0x72 && b4 == 0x75 {
        Region::EuRussian
    } else if b0 == 0x6b && b1 == 0x72 && b2 == 0x5f && b3 == 0x6b && b4 == 0x6f {
        Region::Korean
    } else if b0 == 0x7a && b1 == 0x68 && b2 == 0x5f && b3 == 0x63 && b4 == 0x6e {
        Region::ChinaChinese
    } else if b0 == 0x7a && b1 == 0x68 && b2 == 0x5f && b3 == 0x74 && b4 == 0x77 {
        Region::TaiwanChinese
    } else {
        Region::UsEnglish
    }
}

/// Map a five-byte marker code to its region.
pub fn region_from_code(b0: u8, b1: u8, b2: u8, b3: u8, b4: u8) -> (r: Region)
    ensures
        r == region_of_code(b0, b1, b2, b3, b4),
{
    if b0 == 0x6a && b1 == 0x70 && b2 == 0x5f && b3 == 0x6a && b4 == 0x61 {
        Region::Japanese
    } else if b0 == 0x75 && b1 == 0x73 && b2 == 0x5f && b3 == 0x65 && b4 == 0x6e {
        Region::UsEnglish
    } else if b0 == 0x75 && b1 == 0x73 && b2 == 0x5f && b3 == 0x66 && b4 == 0x72 {
        Region::UsFrench
    } else if b0 == 0x75 && b1 == 0x73 && b2 == 0x5f && b3 == 0x65 && b4 == 0x73 {
        Region::UsSpanish
    } else if b0 == 0x65 && b1 == 0x75 && b2 == 0x5f && b3 == 0x65 && b4 == 0x6e {
        Region::EuEnglish
    } else if b0 == 0x65 && b1 == 0x75 && b2 == 0x5f && b3 == 0x66 && b4 == 0x72 {
        Region::EuFrench
    } else if b0 == 0x65 && b1 == 0x75 && b2 == 0x5f && b3 == 0x65 && b4 == 0x73 {
        Region::EuSpanish
    } else if b0 == 0x65 && b1 == 0x75 && b2 == 0x5f && b3 == 0x64 && b4 == 0x65 {
        Region::EuGerman
    } else if b0 == 0x65 && b1 == 0x75 && b2 == 0x5f && b3 == 0x6e && b4 == 0x6c {
        Region::EuDutch
    } else if b0 == 0x65 && b1 == 0x75 && b2 == 0x5f && b3 == 0x69 && b4 == 0x74 {
        Region::EuItalian
    } else if b0 == 0x65 && b1 == 0x75 && b2 == 0x5f && b3 == 0x72 && b4 == 0x75 {
        Region::EuRussian
    } else if b0 == 0x6b && b1 == 0x72 && b2 == 0x5f && b3 == 0x6b && b4 == 0x6f {
        Region::Korean
    } else if b0 == 0x7a && b1 == 0x68 && b2 == 0x5f && b3 == 0x63 && b4 == 0x6e {
        Region::ChinaChinese
    } else if b0 == 0x7a && b1 == 0x68 && b2 == 0x5f && b3 == 0x74 && b4 == 0x77 {
        Region::TaiwanChinese
    } else {
        Region::UsEnglish
    }
}

// ---------------------------------------------------------------------------
// Replacement file paths
// ---------------------------------------------------------------------------

/// Where the file name of `s` begins: after the last path separator, or at the
/// start when there is none.
pub open spec fn file_name_start(s: Seq<u8>) -> int {
    if contains_byte(s, SLASH) {
        last_byte(s, SLASH) + 1
    } else {
        0
    }
}

/// The file-name part of `s`.
pub open spec fn file_name(s: Seq<u8>) -> Seq<u8> {
    s.skip(file_name_start(s))
}

/// The file name carries an extension: a `.` past its first byte (a name that
/// is nothing but a leading `.` has none).
pub open spec fn has_extension(f: Seq<u8>) -> bool {
    exists|i: int| 1 <= i < f.len() && f[i] == DOT
}

/// The region a path's file name selects: the five bytes after its first `+`
/// marker, when the name has an extension; `None` without marker or extension.
pub open spec fn spec_get_region(s: Seq<u8>) -> Option<Region> {
    let f = file_name(s);
    if has_extension(f) && contains_byte(f, PLUS) {
        let m = first_byte(f, PLUS);
        Some(region_of_code(f[m + 1], f[m + 2], f[m + 3], f[m + 4], f[m + 5]))
    } else {
        None
    }
}

/// An on-disk replacement file path, held as bytes.
pub struct ModPath(Vec<u8>);

impl View for ModPath {
    type V = Seq<u8>;

    closed spec fn view(&self) -> Seq<u8> {
        self.0@
    }
}

impl ModPath {
    pub fn new(path: Vec<u8>) -> (r: Self)
        ensures
            r@ == path@,
    {
        ModPath(path)
    }

    /// The archive-relative form of this path: `;` restored to `:`, the
    /// regional marker removed, and a trailing `mp4` rewritten to `webm`.
    pub fn as_smash_path(&self) -> (r: Vec<u8>)
        requires
            region_marker_ok(replace_semicolons(self@)),
        ensures
            r@ == normalized_path(self@),
    {
        // Restore the archive's `:` separators.
        let n = self.0.len();
        let mut t: Vec<u8> = Vec::new();
        let mut i: usize = 0;
        while i < n
            invariant
                n == self@.len(),
                i <= n,
                t@.len() == i,
                forall|j: int|
                    0 <= j < i ==> t@[j] == (if self@[j] == SEMICOLON {
                        COLON
                    } else {
                        self@[j]
                    }),
            decreases n - i,
        {
            let b = *self.0.get(i).unwrap();
            if b == SEMICOLON {
                t.push(COLON);
            } else {
                t.push(b);
            }
            i = i + 1;
        }
        proof {
            assert(t@ =~= replace_semicolons(self@));
        }

        // Remove the regional marker, `+` up to the first `.`.
        let u: Vec<u8> = match find_first_byte(&t, PLUS) {
            Some(plus) => {
                proof {
                    lemma_first_byte_is_first(t@, PLUS);
                    if first_byte(t@, PLUS) < plus as int {
                        assert(t@[first_byte(t@, PLUS)] != PLUS);
                    } else if (plus as int) < first_byte(t@, PLUS) {
                        assert(t@[plus as int] != PLUS);
                    }
                }
                match find_first_byte(&t, DOT) {
                    Some(dot) => {
                        proof {
                            lemma_first_byte_is_first(t@, DOT);
                            if first_byte(t@, DOT) < dot as int {
                                assert(t@[first_byte(t@, DOT)] != DOT);
                            } else if (dot as int) < first_byte(t@, DOT) {
                                assert(t@[dot as int] != DOT);
                            }
                        }
                        let m = t.len();
                        let mut u: Vec<u8> = Vec::new();
                        let mut k: usize = 0;
                        while k < plus
                            invariant
                                plus < m,
                                m == t@.len(),
                                k <= plus,
                                u@.len() == k,
                                forall|j: int| 0 <= j < k ==> u@[j] == t@[j],
                            decreases plus - k,
                        {
                            let b = *t.get(k).unwrap();
                            u.push(b);
                            k = k + 1;
                        }
                        let mut k2: usize = dot;
                        while k2 < m
                            invariant
                                plus < m,
                                dot <= k2 <= m,
                                m == t@.len(),
                                u@.len() == plus + (k2 - dot),
                                forall|j: int| 0 <= j < plus ==> u@[j] == t@[j],
                                forall|j: int|
                                    plus <= j < u@.len() ==> u@[j] == t@[j - plus + dot],
                            decreases m - k2,
                        {
                            let b = *t.get(k2).unwrap();
                            u.push(b);
                            k2 = k2 + 1;
                        }
                        proof {
                            assert(u@ =~= strip_region_marker(replace_semicolons(self@)));
                        }
                        u
                    },
                    None => {
                        proof {
                            assert(false);
                        }
                        Vec::new()
                    },
                }
            },
            None => t,
        };

        // Rewrite a trailing `mp4` to `webm`.
        let ulen = u.len();
        if ulen >= 3 && *u.get(ulen - 3).unwrap() == 0x6d && *u.get(ulen - 2).unwrap() == 0x70
            && *u.get(ulen - 1).unwrap() == 0x34 {
            let mut w: Vec<u8> = Vec::new();
            let mut k: usize = 0;
            while k < ulen - 3
                invariant
                    ulen == u@.len(),
                    ulen >= 3,
                    k <= ulen - 3,
                    w@.len() == k,
                    forall|j: int| 0 <= j < k ==> w@[j] == u@[j],
                decreases ulen - 3 - k,
            {
                let b = *u.get(k).unwrap();
                w.push(b);
                k = k + 1;
            }
            w.push(0x77);
            w.push(0x65);
            w.push(0x62);
            w.push(0x6d);
            proof {
                assert(w@ =~= normalized_path(self@));
            }
            w
        } else {
            proof {
                assert(u@ =~= normalized_path(self@));
            }
            u
        }
    }

    /// The content hash of the normalized path, the key the engine looks
    /// replacements up under; an error when the path is not representable in
    /// the engine's string form.
    pub fn hash40(&self) -> (r: Result<u64, PathError>)
        requires
            region_marker_ok(replace_semicolons(self@)),
        ensures
            all_ascii(normalized_path(self@)) ==> r == Ok::<u64, PathError>(
                hash40_of(normalized_path(self@)),
            ),
            !all_ascii(normalized_path(self@)) ==> r == Err::<u64, PathError>(
                PathError::NotRepresentable,
            ),
    {
        let p = self.as_smash_path();
        let n = p.len();
        let mut i: usize = 0;
        while i < n
            invariant
                n == p@.len(),
                i <= n,
                p@ == normalized_path(self@),
                forall|j: int| 0 <= j < i ==> p@[j] < 0x80,
            decreases n - i,
        {
            if *p.get(i).unwrap() >= 0x80 {
                proof {
                    assert(!(p@[i as int] < 0x80));
                    assert((i as int) < p@.len());
                    assert(!all_ascii(p@));
                    assert(!all_ascii(normalized_path(self@)));
                }
                return Err(PathError::NotRepresentable);
            }
            i = i + 1;
        }
        Ok(hash40_bytes(p.as_slice()))
    }

    /// Whether the path lies under the archive's streamed-data root: its first
    /// component is exactly `stream`.
    pub fn is_stream(&self) -> (r: bool)
        ensures
            r == (self@.len() >= 6 && self@.subrange(0, 6) =~= seq![
                0x73u8,
                0x74,
                0x72,
                0x65,
                0x61,
                0x6d,
            ] && (self@.len() == 6 || self@[6] == SLASH)),
    {
        let n = self.0.len();
        if n < 6 {
            return false;
        }
        let head_ok = *self.0.get(0).unwrap() == 0x73 && *self.0.get(1).unwrap() == 0x74
            && *self.0.get(2).unwrap() == 0x72 && *self.0.get(3).unwrap() == 0x65 && *self.0.get(
            4,
        ).unwrap() == 0x61 && *self.0.get(5).unwrap() == 0x6d;
        if !head_ok {
            return false;
        }
        n == 6 || *self.0.get(6).unwrap() == SLASH
    }

    /// The region the path's file name selects through its `+` marker, when
    /// the name has an extension.
    pub fn get_region(&self) -> (r: Option<Region>)
        requires
            contains_byte(file_name(self@), PLUS) ==> first_byte(file_name(self@), PLUS) + 6
                <= file_name(self@).len(),
        ensures
            r == spec_get_region(self@),
    {
        let n = self.0.len();
        // The file name begins after the last separator.
        let start: usize = match find_last_byte(&self.0, SLASH) {
            Some(b) => {
                proof {
                    lemma_last_byte_is_last(self@, SLASH);
                    if last_byte(self@, SLASH) < b as int {
                        assert(self@[b as int] != SLASH);
                    } else if (b as int) < last_byte(self@, SLASH) {
                        assert(self@[last_byte(self@, SLASH)] != SLASH);
                    }
                }
                b + 1
            },
            None => 0,
        };
        let ghost f = file_name(self@);
        proof {
            assert(f == self@.skip(start as int));
            assert(f.len() == n - start);
        }

        // Does the file name carry an extension?
        let mut has_ext: bool = false;
        if start < n {
            let mut i: usize = start + 1;
            while i < n && !has_ext
                invariant
                    start < n,
                    start + 1 <= i <= n,
                    n == self@.len(),
                    f == file_name(self@),
                    f == self@.skip(start as int),
                    f.len() == n - start,
                    has_ext ==> i < n && f[i - start] == DOT,
                    !has_ext ==> forall|j: int| 1 <= j < i - start ==> f[j] != DOT,
                decreases n - i, (if has_ext { 0int } else { 1int }),
            {
                if *self.0.get(i).unwrap() == DOT {
                    has_ext = true;
                } else {
                    i = i + 1;
                }
            }
        }
        if !has_ext {
            proof {
                assert(!has_extension(f));
            }
            return None;
        }

        // The marker, if any, names the five bytes that follow it.
        let mut plus: Option<usize> = None;
        let mut k: usize = start;
        while k < n && plus.is_none()
            invariant
                start <= k <= n,
                n == self@.len(),
                f == file_name(self@),
                f == self@.skip(start as int),
                f.len() == n - start,
                match plus {
                    Some(q) => start <= q < n && f[q - start] == PLUS && forall|j: int|
                        0 <= j < q - start ==> f[j] != PLUS,
                    None => forall|j: int| 0 <= j < k - start ==> f[j] != PLUS,
                },
            decreases n - k, (if plus is Some { 0int } else { 1int }),
        {
            if *self.0.get(k).unwrap() == PLUS {
                plus = Some(k);
            } else {
                k = k + 1;
            }
        }
        match plus {
            None => {
                proof {
                    assert(!contains_byte(f, PLUS));
                }
                None
            },
            Some(q) => {
                proof {
                    assert(is_first_byte(f, PLUS, q - start));
                    lemma_first_byte_is_first(f, PLUS);
                    if first_byte(f, PLUS) < q - start {
                        assert(f[first_byte(f, PLUS)] != PLUS);
                    } else if q - start < first_byte(f, PLUS) {
                        assert(f[q - start] != PLUS);
                    }
                    assert(first_byte(f, PLUS) + 6 <= f.len());
                }
                let b0 = *self.0.get(q + 1).unwrap();
                let b1 = *self.0.get(q + 2).unwrap();
                let b2 = *self.0.get(q + 3).unwrap();
                let b3 = *self.0.get(q + 4).unwrap();
                let b4 = *self.0.get(q + 5).unwrap();
                Some(region_from_code(b0, b1, b2, b3, b4))
            },
        }
    }
}

/// Why a path could not be keyed: its normalized form is not representable in
/// the engine's string form.
#[derive(Clone, Copy, PartialEq, Eq, Structural, Debug)]
pub enum PathError {
    NotRepresentable,
}

} // verus!
