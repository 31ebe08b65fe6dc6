//! Text operations on paths, names and header keys, each with its model over
//! `Seq<char>`.

use vstd::prelude::*;
use vstd::string::*;
use vstd::std_specs::iter::IteratorSpec;

verus! {

/// The path with every leading `/` removed.
pub open spec fn trim_start_slashes(s: Seq<char>) -> Seq<char>
    decreases s.len(),
{
    if s.len() > 0 && s[0] == '/' {
        trim_start_slashes(s.drop_first())
    } else {
        s
    }
}

/// The path with every trailing `/` removed.
pub open spec fn trim_end_slashes(s: Seq<char>) -> Seq<char>
    decreases s.len(),
{
    if s.len() > 0 && s.last() == '/' {
        trim_end_slashes(s.drop_last())
    } else {
        s
    }
}

/// The characters before the first `/` (all of them if there is none).
pub open spec fn take_segment(s: Seq<char>) -> Seq<char>
    decreases s.len(),
{
    if s.len() == 0 || s[0] == '/' {
        Seq::empty()
    } else {
        seq![s[0]] + take_segment(s.drop_first())
    }
}

/// The key under which paths with no first segment (such as the root path
/// `/`) are filed.
pub open spec fn root_key() -> Seq<char> {
    seq!['r', 'o', 'o', 't']
}

/// The first segment of a path: what precedes the first `/` once the leading
/// slashes are gone (`"/api/v1/login"` gives `"api"`); a path with no such
/// segment (the root path `"/"`, or `""`) gives `"root"`.
pub open spec fn first_segment(s: Seq<char>) -> Seq<char> {
    let seg = take_segment(trim_start_slashes(s));
    if seg.len() == 0 {
        root_key()
    } else {
        seg
    }
}

/// The characters of `s`, one element each.
pub(crate) fn chars_of(s: &str) -> (v: Vec<char>)
    ensures
        v@ == s@,
{
    let mut v: Vec<char> = Vec::new();
    proof {
        broadcast use axiom_spec_iter;
    }
    for c in it: s.chars()
        invariant
            it.seq() == s@,
            v@ == s@.take(it.index() as int),
    {
        v.push(c);
        assert(v@ =~= s@.take(it.index() + 1));
    }
    assert(v@ =~= s@);
    v
}

/// Index of the first character of `s` that is not `/` (`s.len()` if none).
fn skip_leading_slashes(cs: &Vec<char>) -> (i: usize)
    ensures
        i <= cs@.len(),
        trim_start_slashes(cs@) == cs@.skip(i as int),
{
    let mut i: usize = 0;
    assert(cs@.skip(0) =~= cs@);
    while i < cs.len() && cs[i] == '/'
        invariant
            i <= cs@.len(),
            trim_start_slashes(cs@) == trim_start_slashes(cs@.skip(i as int)),
        decreases cs@.len() - i,
    {
        assert(cs@.skip(i as int).drop_first() =~= cs@.skip(i + 1));
        i = i + 1;
    }
    i
}

/// Index of the first `/` at or after `from` (`s.len()` if none).
fn find_slash(cs: &Vec<char>, from: usize) -> (j: usize)
    requires
        from <= cs@.len(),
    ensures
        from <= j <= cs@.len(),
        take_segment(cs@.skip(from as int)) == cs@.subrange(from as int, j as int),
{
    let mut j: usize = from;
    while j < cs.len() && cs[j] != '/'
        invariant
            from <= j <= cs@.len(),
            take_segment(cs@.skip(from as int)) == cs@.subrange(from as int, j as int) + take_segment(
                cs@.skip(j as int),
            ),
        decreases cs@.len() - j,
    {
        assert(cs@.skip(j as int).drop_first() =~= cs@.skip(j + 1));
        assert(cs@.subrange(from as int, j as int) + seq![cs@[j as int]] =~= cs@.subrange(
            from as int,
            j + 1,
        ));
        j = j + 1;
    }
    assert(take_segment(cs@.skip(j as int)) =~= Seq::<char>::empty());
    assert(cs@.subrange(from as int, j as int) + Seq::<char>::empty() =~= cs@.subrange(
        from as int,
        j as int,
    ));
    j
}

/// Length of `s` once its trailing slashes are removed.
fn trimmed_end(cs: &Vec<char>) -> (e: usize)
    ensures
        e <= cs@.len(),
        trim_end_slashes(cs@) == cs@.take(e as int),
{
    let mut e: usize = cs.len();
    assert(cs@.take(e as int) =~= cs@);
    while e > 0 && cs[e - 1] == '/'
        invariant
            e <= cs@.len(),
            trim_end_slashes(cs@) == trim_end_slashes(cs@.take(e as int)),
        decreases e,
    {
        assert(cs@.take(e as int).drop_last() =~= cs@.take(e - 1));
        e = e - 1;
    }
    e
}

/// The first segment of `path`, as the index uses it for a key.
pub fn first_segment_of(path: &str) -> (r: String)
    ensures
        r@ == first_segment(path@),
{
    let cs = chars_of(path);
    let i: usize = skip_leading_slashes(&cs);
    let j: usize = find_slash(&cs, i);
    if i == j {
        proof {
            reveal_strlit("root");
            assert("root"@ =~= root_key());
        }
        "root".to_owned()
    } else {
        path.substring_char(i, j).to_owned()
    }
}

/// Whether two sequences of characters are equal.
fn chars_equal(a: &Vec<char>, alen: usize, b: &Vec<char>, blen: usize) -> (r: bool)
    requires
        alen <= a@.len(),
        blen <= b@.len(),
    ensures
        r == (a@.take(alen as int) == b@.take(blen as int)),
{
    if alen != blen {
        assert(a@.take(alen as int).len() != b@.take(blen as int).len());
        return false;
    }
    let mut k: usize = 0;
    while k < alen
        invariant
            alen == blen,
            alen <= a@.len(),
            blen <= b@.len(),
            k <= alen,
            forall|m: int| 0 <= m < k ==> a@[m] == b@[m],
        decreases alen - k,
    {
        if a[k] != b[k] {
            assert(a@.take(alen as int)[k as int] != b@.take(blen as int)[k as int]);
            return false;
        }
        k = k + 1;
    }
    assert(a@.take(alen as int) =~= b@.take(blen as int));
    true
}

/// Whether `a` and `b` are equal once trailing slashes are ignored.
pub fn same_path(a: &str, b: &str) -> (r: bool)
    ensures
        r == (trim_end_slashes(a@) == trim_end_slashes(b@)),
{
    let ac = chars_of(a);
    let bc = chars_of(b);
    let ea: usize = trimmed_end(&ac);
    let eb: usize = trimmed_end(&bc);
    chars_equal(&ac, ea, &bc, eb)
}

/// Whether two strings hold the same characters.
pub(crate) fn str_equal(a: &str, b: &str) -> (r: bool)
    ensures
        r == (a@ == b@),
{
    let ac = chars_of(a);
    let bc = chars_of(b);
    assert(ac@.take(ac@.len() as int) =~= ac@);
    assert(bc@.take(bc@.len() as int) =~= bc@);
    chars_equal(&ac, ac.len(), &bc, bc.len())
}

/// Whether `s` begins with `prefix`.
pub open spec fn has_prefix(s: Seq<char>, prefix: Seq<char>) -> bool {
    prefix.len() <= s.len() && s.take(prefix.len() as int) == prefix
}

/// Whether `s` ends with `suffix`.
pub open spec fn has_suffix(s: Seq<char>, suffix: Seq<char>) -> bool {
    suffix.len() <= s.len() && s.skip(s.len() - suffix.len()) == suffix
}

/// Whether `s` begins with `prefix`.
pub(crate) fn starts_with(s: &str, prefix: &str) -> (r: bool)
    ensures
        r == has_prefix(s@, prefix@),
{
    let sc = chars_of(s);
    let pc = chars_of(prefix);
    if pc.len() > sc.len() {
        return false;
    }
    assert(pc@.take(pc@.len() as int) =~= pc@);
    chars_equal(&sc, pc.len(), &pc, pc.len())
}

/// Whether `s` ends with `suffix`.
pub(crate) fn ends_with(s: &str, suffix: &str) -> (r: bool)
    ensures
        r == has_suffix(s@, suffix@),
{
    let sc = chars_of(s);
    let xc = chars_of(suffix);
    if xc.len() > sc.len() {
        return false;
    }
    let off: usize = sc.len() - xc.len();
    let mut k: usize = 0;
    while k < xc.len()
        invariant
            sc@ == s@,
            xc@ == suffix@,
            off + xc.len() == sc.len(),
            k <= xc@.len(),
            forall|m: int| 0 <= m < k ==> sc@[off + m] == xc@[m],
        decreases xc@.len() - k,
    {
        if sc[off + k] != xc[k] {
            assert(sc@.skip(off as int)[k as int] != xc@[k as int]);
            return false;
        }
        k = k + 1;
    }
    assert(sc@.skip(off as int) =~= xc@);
    true
}

/// What `str::to_uppercase` returns for `s`: its Unicode upper-case mapping.
pub uninterp spec fn spec_to_uppercase(s: Seq<char>) -> Seq<char>;

/// What `str::to_lowercase` returns for `s`: its Unicode lower-case mapping.
pub uninterp spec fn spec_to_lowercase(s: Seq<char>) -> Seq<char>;

/// Calls `str::to_uppercase`. The contract claims only that the result is
/// determined by the characters of `s` (it is named `spec_to_uppercase`);
/// the Unicode case tables it follows are not written out.
#[verifier::external_body]
pub(crate) fn to_uppercase(s: &str) -> (r: String)
    ensures
        r@ == spec_to_uppercase(s@),
{
    s.to_uppercase()
}

/// Calls `str::to_lowercase`. The contract claims only that the result is
/// determined by the characters of `s` (it is named `spec_to_lowercase`);
/// the Unicode case tables it follows are not written out.
#[verifier::external_body]
pub(crate) fn to_lowercase(s: &str) -> (r: String)
    ensures
        r@ == spec_to_lowercase(s@),
{
    s.to_lowercase()
}

} // verus!
