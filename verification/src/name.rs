use vstd::prelude::*;

verus! {

/// Byte values of the ASCII characters the grammars speak of.
pub const LC_A: u8 = 97;

pub const LC_Z: u8 = 122;

pub const UC_A: u8 = 65;

pub const UC_Z: u8 = 90;

pub const DIG_0: u8 = 48;

pub const DIG_9: u8 = 57;

pub const DOT: u8 = 46;

pub const UNDERSCORE: u8 = 95;

pub const HYPHEN: u8 = 45;

pub const SLASH: u8 = 47;

/// Longest accepted repository name, in bytes.
pub const MAX_NAME_LEN: usize = 255;

/// Longest accepted tag, in bytes.
pub const MAX_TAG_LEN: usize = 128;

/// A lowercase letter or digit: the only bytes a segment may start or end with.
pub open spec fn is_seg_alnum(b: u8) -> bool {
    (LC_A <= b && b <= LC_Z) || (DIG_0 <= b && b <= DIG_9)
}

/// A separator allowed inside a segment, never doubled and never at an end.
pub open spec fn is_seg_sep(b: u8) -> bool {
    b == DOT || b == UNDERSCORE || b == HYPHEN
}

/// A valid repository name: one or more `/`-separated segments, each matching
/// `[a-z0-9]+([._-][a-z0-9]+)*`, at most [`MAX_NAME_LEN`] bytes in all.
///
/// The character-level phrasing below is equivalent to the segment grammar:
/// every byte is a letter, digit, separator or `/`; the first and last bytes
/// are letters or digits; and every separator or `/` is followed by a letter
/// or digit (which also forces the byte before it to be one).
pub open spec fn valid_repo_name(s: Seq<u8>) -> bool {
    &&& 0 < s.len() <= MAX_NAME_LEN
    &&& is_seg_alnum(s[0])
    &&& is_seg_alnum(s[s.len() - 1])
    &&& forall|i: int|
        0 <= i < s.len() ==> (is_seg_alnum(#[trigger] s[i]) || is_seg_sep(s[i]) || s[i] == SLASH)
    &&& forall|i: int|
        0 <= i < s.len() - 1 && !is_seg_alnum(#[trigger] s[i]) ==> is_seg_alnum(s[i + 1])
}

/// A byte allowed at the start of a tag.
pub open spec fn is_tag_start(b: u8) -> bool {
    (LC_A <= b && b <= LC_Z) || (UC_A <= b && b <= UC_Z) || (DIG_0 <= b && b <= DIG_9) || b == UNDERSCORE
}

/// A byte allowed after the first byte of a tag.
pub open spec fn is_tag_rest(b: u8) -> bool {
    is_tag_start(b) || b == DOT || b == HYPHEN
}

/// A valid tag: a start byte followed by up to 127 further tag bytes.
pub open spec fn valid_tag(s: Seq<u8>) -> bool {
    &&& 0 < s.len() <= MAX_TAG_LEN
    &&& is_tag_start(s[0])
    &&& forall|i: int| 1 <= i < s.len() ==> is_tag_rest(#[trigger] s[i])
}

/// Checks a repository name against the namespace grammar.
pub fn check_repo_name(s: &[u8]) -> (r: bool)
    ensures
        r == valid_repo_name(s@),
{
    let n = s.len();
    if n == 0 || n > MAX_NAME_LEN {
        return false;
    }
    if !byte_is_seg_alnum(s[0]) || !byte_is_seg_alnum(s[n - 1]) {
        return false;
    }
    let mut i: usize = 0;
    while i < n
        invariant
            n == s@.len(),
            i <= n,
            forall|j: int|
                0 <= j < i ==> (is_seg_alnum(#[trigger] s@[j]) || is_seg_sep(s@[j]) || s@[j]
                    == SLASH),
            forall|j: int| 0 <= j < i && j < n - 1 && !is_seg_alnum(#[trigger] s@[j])
                ==> is_seg_alnum(s@[j + 1]),
        decreases n - i,
    {
        let b = s[i];
        if !(byte_is_seg_alnum(b) || byte_is_seg_sep(b) || b == SLASH) {
            return false;
        }
        if i < n - 1 && !byte_is_seg_alnum(b) && !byte_is_seg_alnum(s[i + 1]) {
            return false;
        }
        i = i + 1;
    }
    true
}

/// Checks a tag against the tag grammar.
pub fn check_tag(s: &[u8]) -> (r: bool)
    ensures
        r == valid_tag(s@),
{
    let n = s.len();
    if n == 0 || n > MAX_TAG_LEN {
        return false;
    }
    if !byte_is_tag_start(s[0]) {
        return false;
    }
    let mut i: usize = 1;
    while i < n
        invariant
            n == s@.len(),
            1 <= i <= n,
            forall|j: int| 1 <= j < i ==> is_tag_rest(#[trigger] s@[j]),
        decreases n - i,
    {
        let b = s[i];
        if !(byte_is_tag_start(b) || b == DOT || b == HYPHEN) {
            return false;
        }
        i = i + 1;
    }
    true
}

/// Joins path levels into one repository name with `/` separators.
///
/// The transport accepts one, two or three path levels; the core addresses a
/// repository by the joined string alone.
pub fn join_levels(levels: &Vec<Vec<u8>>) -> (r: Vec<u8>)
    requires
        levels@.len() > 0,
    ensures
        r@ == spec_join_levels(levels@.map_values(|v: Vec<u8>| v@)),
{
    let mut out: Vec<u8> = Vec::new();
    let mut i: usize = 0;
    while i < levels.len()
        invariant
            0 <= i <= levels@.len(),
            levels@.len() > 0,
            i > 0 ==> out@ == spec_join_levels(
                levels@.map_values(|v: Vec<u8>| v@).take(i as int),
            ),
            i == 0 ==> out@ == Seq::<u8>::empty(),
        decreases levels@.len() - i,
    {
        if i > 0 {
            out.push(SLASH);
        }
        let mut j: usize = 0;
        let seg = &levels[i];
        while j < seg.len()
            invariant
                0 <= j <= seg@.len(),
                seg@ == levels@[i as int]@,
                i < levels@.len(),
                out@ == (if i == 0 {
                    Seq::<u8>::empty()
                } else {
                    spec_join_levels(levels@.map_values(|v: Vec<u8>| v@).take(i as int)) + seq![
                        SLASH,
                    ]
                }) + seg@.take(j as int),
            decreases seg@.len() - j,
        {
            out.push(seg[j]);
            j = j + 1;
        }
        proof {
            let m = levels@.map_values(|v: Vec<u8>| v@);
            assert(seg@.take(seg@.len() as int) =~= m[i as int]);
            assert(m.take(i + 1).drop_last() =~= m.take(i as int));
            assert(m.take(i + 1).last() == m[i as int]);
            if i == 0 {
                assert(out@ =~= spec_join_levels(m.take(1)));
            } else {
                assert(out@ =~= spec_join_levels(m.take(i + 1)));
            }
        }
        i = i + 1;
    }
    proof {
        let m = levels@.map_values(|v: Vec<u8>| v@);
        assert(m.take(m.len() as int) =~= m);
    }
    out
}

/// The joined form of a non-empty sequence of path levels.
pub open spec fn spec_join_levels(levels: Seq<Seq<u8>>) -> Seq<u8>
    decreases levels.len(),
{
    if levels.len() == 0 {
        Seq::empty()
    } else if levels.len() == 1 {
        levels[0]
    } else {
        spec_join_levels(levels.drop_last()) + seq![SLASH] + levels.last()
    }
}

/// Tests a byte for the segment letter-or-digit class.
fn byte_is_seg_alnum(b: u8) -> (r: bool)
    ensures
        r == is_seg_alnum(b),
{
    (LC_A <= b && b <= LC_Z) || (DIG_0 <= b && b <= DIG_9)
}

/// Tests a byte for the segment separator class.
fn byte_is_seg_sep(b: u8) -> (r: bool)
    ensures
        r == is_seg_sep(b),
{
    b == DOT || b == UNDERSCORE || b == HYPHEN
}

/// Tests a byte for the tag start class.
fn byte_is_tag_start(b: u8) -> (r: bool)
    ensures
        r == is_tag_start(b),
{
    (LC_A <= b && b <= LC_Z) || (UC_A <= b && b <= UC_Z) || (DIG_0 <= b && b <= DIG_9) || b == UNDERSCORE
}

} // verus!
