//! Paths: sequences of names that address an inventory entry, a feature or
//! a roll.

use vstd::prelude::*;

verus! {

/// A path as mathematics sees it: the characters of each segment.
pub type PathView = Seq<Seq<char>>;

/// The characters of each segment of a path.
pub open spec fn path_view(path: Seq<String>) -> PathView {
    Seq::new(path.len(), |i: int| path[i]@)
}

/// Whether two texts are the same.
pub fn is_text(text: &str, expected: &str) -> (same: bool)
    ensures
        same == (text@ == expected@),
{
    text.to_owned() == expected.to_owned()
}

/// A copy of a path.
pub fn clone_path(path: &Vec<String>) -> (copy: Vec<String>)
    ensures
        copy@ == path@,
{
    let mut copy: Vec<String> = Vec::new();
    let mut i: usize = 0;
    while i < path.len()
        invariant
            i <= path.len(),
            copy@ == path@.take(i as int),
        decreases path.len() - i,
    {
        copy.push(path[i].clone());
        assert(path@.take(i + 1) == path@.take(i as int).push(path@[i as int]));
        i += 1;
    }
    assert(path@.take(path.len() as int) == path@);
    copy
}

/// A path without its first segment.
pub fn tail(path: &Vec<String>) -> (rest: Vec<String>)
    requires
        path.len() > 0,
    ensures
        rest@ == path@.skip(1),
        path_view(rest@) == path_view(path@).skip(1),
{
    let mut rest: Vec<String> = Vec::new();
    let mut i: usize = 1;
    while i < path.len()
        invariant
            1 <= i <= path.len(),
            rest@ == path@.subrange(1, i as int),
        decreases path.len() - i,
    {
        rest.push(path[i].clone());
        assert(path@.subrange(1, i + 1) == path@.subrange(1, i as int).push(path@[i as int]));
        i += 1;
    }
    assert(path_view(rest@) == path_view(path@).skip(1));
    rest
}

/// Whether `a` comes before `b` from place `from` on, in dictionary order:
/// the first place where they differ decides, and a sequence comes before
/// each one that it is a proper beginning of.
pub open spec fn lex_before_from<A>(a: Seq<A>, b: Seq<A>, before: spec_fn(A, A) -> bool, from: int) -> bool
    decreases a.len() - from,
{
    if from < 0 || from >= b.len() {
        false
    } else if from >= a.len() {
        true
    } else if a[from] != b[from] {
        before(a[from], b[from])
    } else {
        lex_before_from(a, b, before, from + 1)
    }
}

/// Whether `a` comes before `b` in dictionary order.
pub open spec fn lex_before<A>(a: Seq<A>, b: Seq<A>, before: spec_fn(A, A) -> bool) -> bool {
    lex_before_from(a, b, before, 0)
}

/// A strict order in which any two different values are ordered.
pub open spec fn strict_total<A>(before: spec_fn(A, A) -> bool) -> bool {
    &&& forall|x: A| !#[trigger] before(x, x)
    &&& forall|x: A, y: A, z: A| #[trigger] before(x, y) && #[trigger] before(y, z) ==> before(x, z)
    &&& forall|x: A, y: A| x != y ==> #[trigger] before(x, y) || before(y, x)
}

/// Characters are ordered by code point.
pub open spec fn char_before() -> spec_fn(char, char) -> bool {
    |x: char, y: char| (x as int) < (y as int)
}

/// Whether text `a` comes before text `b`: in dictionary order over code
/// points, which is the order of the texts' bytes.
pub open spec fn text_before(a: Seq<char>, b: Seq<char>) -> bool {
    lex_before(a, b, char_before())
}

/// Segments are ordered as texts.
pub open spec fn segment_before() -> spec_fn(Seq<char>, Seq<char>) -> bool {
    |x: Seq<char>, y: Seq<char>| text_before(x, y)
}

/// Whether path `a` comes before path `b`: in dictionary order over their
/// segments.
pub open spec fn path_before(a: PathView, b: PathView) -> bool {
    lex_before(a, b, segment_before())
}

/// From a place up to which two sequences agree, at most one of them comes
/// before the other.
proof fn lemma_lex_asymmetric_from<A>(a: Seq<A>, b: Seq<A>, before: spec_fn(A, A) -> bool, from: int)
    requires
        strict_total(before),
        0 <= from,
    ensures
        !(lex_before_from(a, b, before, from) && lex_before_from(b, a, before, from)),
    decreases a.len() - from,
{
    if from < a.len() && from < b.len() {
        if a[from] == b[from] {
            lemma_lex_asymmetric_from(a, b, before, from + 1);
        } else if before(a[from], b[from]) && before(b[from], a[from]) {
            assert(before(a[from], a[from]));
        }
    }
}

/// From a place up to which two different sequences agree, one of them comes
/// before the other.
proof fn lemma_lex_connected_from<A>(a: Seq<A>, b: Seq<A>, before: spec_fn(A, A) -> bool, from: int)
    requires
        strict_total(before),
        0 <= from,
        a.skip(from) != b.skip(from),
        from <= a.len(),
        from <= b.len(),
    ensures
        lex_before_from(a, b, before, from) || lex_before_from(b, a, before, from),
    decreases a.len() - from,
{
    if from < a.len() && from < b.len() {
        if a[from] == b[from] {
            if a.skip(from + 1) == b.skip(from + 1) {
                assert(a.skip(from) =~= seq![a[from]] + a.skip(from + 1));
                assert(b.skip(from) =~= seq![b[from]] + b.skip(from + 1));
            }
            lemma_lex_connected_from(a, b, before, from + 1);
        }
    } else if from == a.len() && from == b.len() {
        assert(a.skip(from) =~= b.skip(from));
    }
}

/// The order is passed on from a place up to which three sequences agree.
proof fn lemma_lex_transitive_from<A>(
    a: Seq<A>,
    b: Seq<A>,
    c: Seq<A>,
    before: spec_fn(A, A) -> bool,
    from: int,
)
    requires
        strict_total(before),
        0 <= from,
        lex_before_from(a, b, before, from),
        lex_before_from(b, c, before, from),
    ensures
        lex_before_from(a, c, before, from),
    decreases a.len() - from,
{
    if from < a.len() {
        if a[from] == b[from] && b[from] == c[from] {
            lemma_lex_transitive_from(a, b, c, before, from + 1);
        } else if a[from] != b[from] && b[from] != c[from] {
            assert(before(a[from], b[from]) && before(b[from], c[from]));
            if a[from] == c[from] {
                assert(before(a[from], a[from]));
            }
        }
    }
}

/// The dictionary order over a strict total order is itself one.
pub proof fn lemma_lex_strict_total<A>(before: spec_fn(A, A) -> bool)
    requires
        strict_total(before),
    ensures
        strict_total(|a: Seq<A>, b: Seq<A>| lex_before(a, b, before)),
{
    let lex = |a: Seq<A>, b: Seq<A>| lex_before(a, b, before);
    assert forall|x: Seq<A>| !#[trigger] lex(x, x) by {
        lemma_lex_asymmetric_from(x, x, before, 0);
    }
    assert forall|x: Seq<A>, y: Seq<A>, z: Seq<A>| #[trigger] lex(x, y) && #[trigger] lex(y, z) implies lex(
        x,
        z,
    ) by {
        lemma_lex_transitive_from(x, y, z, before, 0);
    }
    assert forall|x: Seq<A>, y: Seq<A>| x != y implies #[trigger] lex(x, y) || lex(y, x) by {
        assert(x.skip(0) =~= x);
        assert(y.skip(0) =~= y);
        lemma_lex_connected_from(x, y, before, 0);
    }
}

/// Texts are strictly and totally ordered.
pub proof fn lemma_text_order()
    ensures
        strict_total(segment_before()),
{
    let before = char_before();
    assert forall|x: char| !#[trigger] before(x, x) by {}
    assert forall|x: char, y: char, z: char| #[trigger] before(x, y) && #[trigger] before(y, z) implies before(
        x,
        z,
    ) by {}
    assert forall|x: char, y: char| x != y implies #[trigger] before(x, y) || before(y, x) by {
        assert(x as int != y as int);
    }
    lemma_lex_strict_total(char_before());
    let lex = |a: Seq<char>, b: Seq<char>| lex_before(a, b, char_before());
    assert forall|x: Seq<char>, y: Seq<char>| lex(x, y) == #[trigger] segment_before()(x, y) by {}
}

/// Paths are strictly and totally ordered: no path comes before itself, the
/// order is passed on, and of two different paths one comes first.
pub proof fn lemma_path_order()
    ensures
        forall|a: PathView| !#[trigger] path_before(a, a),
        forall|a: PathView, b: PathView, c: PathView|
            #[trigger] path_before(a, b) && #[trigger] path_before(b, c) ==> path_before(a, c),
        forall|a: PathView, b: PathView| a != b ==> #[trigger] path_before(a, b) || path_before(b, a),
        forall|a: PathView, b: PathView| !(#[trigger] path_before(a, b) && path_before(b, a)),
        forall|a: PathView, b: PathView, c: PathView|
            !#[trigger] path_before(b, a) && !#[trigger] path_before(c, b) ==> !path_before(c, a),
{
    lemma_text_order();
    lemma_lex_strict_total(segment_before());
    let lex = |a: PathView, b: PathView| lex_before(a, b, segment_before());
    assert forall|a: PathView, b: PathView| lex(a, b) == #[trigger] path_before(a, b) by {}
    assert forall|a: PathView, b: PathView| !(#[trigger] path_before(a, b) && path_before(b, a)) by {
        if path_before(a, b) && path_before(b, a) {
            assert(lex(a, b) && lex(b, a));
            assert(lex(a, a));
        }
    }
    assert forall|a: PathView, b: PathView, c: PathView|
        !#[trigger] path_before(b, a) && !#[trigger] path_before(c, b) implies !path_before(c, a) by {
        if path_before(c, a) {
            if a != b {
                assert(lex(a, b));
                assert(lex(c, a) && lex(a, b));
                assert(lex(c, b));
            }
        }
    }
}

/// Whether text `a` comes before text `b`.
pub fn is_text_before(a: &str, b: &str) -> (before: bool)
    ensures
        before == text_before(a@, b@),
{
    let a_len = a.unicode_len();
    let b_len = b.unicode_len();
    let mut i: usize = 0;
    while i < a_len && i < b_len
        invariant
            a_len == a@.len(),
            b_len == b@.len(),
            i <= a_len,
            i <= b_len,
            text_before(a@, b@) == lex_before_from(a@, b@, char_before(), i as int),
        decreases a_len - i,
    {
        let x = a.get_char(i);
        let y = b.get_char(i);
        if x != y {
            return (x as u32) < (y as u32);
        }
        i += 1;
    }
    i < b_len
}

/// Whether path `a` comes before path `b`.
pub fn is_path_before(a: &Vec<String>, b: &Vec<String>) -> (before: bool)
    ensures
        before == path_before(path_view(a@), path_view(b@)),
{
    let mut i: usize = 0;
    while i < a.len() && i < b.len()
        invariant
            i <= a.len(),
            i <= b.len(),
            path_before(path_view(a@), path_view(b@)) == lex_before_from(
                path_view(a@),
                path_view(b@),
                segment_before(),
                i as int,
            ),
        decreases a.len() - i,
    {
        if !(a[i] == b[i]) {
            return is_text_before(a[i].as_str(), b[i].as_str());
        }
        i += 1;
    }
    i < b.len()
}

/// Whether `prefix` is the beginning of `path`.
pub fn starts_with(path: &Vec<String>, prefix: &Vec<String>) -> (begins: bool)
    ensures
        begins == path_view(prefix@).is_prefix_of(path_view(path@)),
{
    if prefix.len() > path.len() {
        return false;
    }
    let mut i: usize = 0;
    while i < prefix.len()
        invariant
            i <= prefix.len() <= path.len(),
            forall|j: int| 0 <= j < i ==> path@[j]@ == prefix@[j]@,
        decreases prefix.len() - i,
    {
        if !(path[i] == prefix[i]) {
            assert(path_view(path@).subrange(0, prefix.len() as int)[i as int] != path_view(
                prefix@,
            )[i as int]);
            return false;
        }
        i += 1;
    }
    assert(path_view(prefix@) =~= path_view(path@).subrange(0, prefix.len() as int));
    true
}

} // verus!
