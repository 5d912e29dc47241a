//! Strings as sequences of characters.

use vstd::prelude::*;

verus! {

/// Whether `a` comes strictly before `b` when strings are ordered character by
/// character, a proper prefix before what it begins. On valid UTF-8 this is the
/// order of the bytes too.
pub open spec fn precedes(a: Seq<char>, b: Seq<char>) -> bool
    decreases a.len(),
{
    if b.len() == 0 {
        false
    } else if a.len() == 0 {
        true
    } else if a[0] != b[0] {
        a[0] < b[0]
    } else {
        precedes(a.skip(1), b.skip(1))
    }
}

/// Whether `needle` occurs in `text` as a run of consecutive characters.
pub open spec fn occurs_in(needle: Seq<char>, text: Seq<char>) -> bool {
    exists|i: int|
        0 <= i <= text.len() - needle.len() && #[trigger] text.subrange(i, i + needle.len())
            == needle
}

/// The texts of strings.
pub open spec fn texts(strings: Seq<String>) -> Seq<Seq<char>> {
    strings.map_values(|s: String| s@)
}

/// The text of a string that may be missing.
pub open spec fn text(string: Option<String>) -> Option<Seq<char>> {
    match string {
        Some(s) => Some(s@),
        None => None,
    }
}

/// Whether the texts come in strictly ascending order.
pub open spec fn ascending(keys: Seq<Seq<char>>) -> bool {
    forall|i: int, j: int|
        0 <= i < j < keys.len() ==> precedes(#[trigger] keys[i], #[trigger] keys[j])
}

/// No string comes before itself.
pub proof fn precedes_irreflexive(a: Seq<char>)
    ensures
        !precedes(a, a),
    decreases a.len(),
{
    if a.len() > 0 {
        precedes_irreflexive(a.skip(1));
    }
}

/// The order on strings is transitive.
pub proof fn precedes_transitive(a: Seq<char>, b: Seq<char>, c: Seq<char>)
    requires
        precedes(a, b),
        precedes(b, c),
    ensures
        precedes(a, c),
    decreases a.len(),
{
    if a.len() > 0 && a[0] == b[0] && b[0] == c[0] {
        precedes_transitive(a.skip(1), b.skip(1), c.skip(1));
    }
}

/// Of two different strings one comes before the other.
pub proof fn precedes_total(a: Seq<char>, b: Seq<char>)
    ensures
        precedes(a, b) || precedes(b, a) || a == b,
    decreases a.len(),
{
    if a.len() > 0 && b.len() > 0 && a[0] == b[0] {
        precedes_total(a.skip(1), b.skip(1));
        if a.skip(1) == b.skip(1) {
            assert(a =~= seq![a[0]] + a.skip(1));
            assert(b =~= seq![b[0]] + b.skip(1));
        }
    } else if a.len() == 0 && b.len() == 0 {
        assert(a =~= b);
    }
}

/// The characters of `s`, in order.
pub(crate) fn chars_of(s: &str) -> (chars: Vec<char>)
    ensures
        chars@ == s@,
{
    let mut chars: Vec<char> = Vec::new();
    for c in it: s.chars()
        invariant
            it.seq() == s@,
            chars@ == s@.take(it.index() as int),
    {
        chars.push(c);
        assert(s@.take(it.index() as int + 1) =~= s@.take(it.index() as int).push(c));
    }
    assert(s@.take(s@.len() as int) =~= s@);
    chars
}

/// Whether the two strings hold the same characters.
pub(crate) fn same(a: &str, b: &str) -> (result: bool)
    ensures
        result == (a@ == b@),
{
    a.to_owned() == b.to_owned()
}

/// Whether `a` comes strictly before `b`.
pub(crate) fn is_before(a: &str, b: &str) -> (result: bool)
    ensures
        result == precedes(a@, b@),
{
    let x = chars_of(a);
    let y = chars_of(b);
    let mut i: usize = 0;
    assert(x@.skip(0) =~= x@);
    assert(y@.skip(0) =~= y@);
    while i < x.len() && i < y.len() && x[i] == y[i]
        invariant
            i <= x.len(),
            i <= y.len(),
            x@ == a@,
            y@ == b@,
            precedes(a@, b@) == precedes(x@.skip(i as int), y@.skip(i as int)),
        decreases x.len() - i,
    {
        assert(x@.skip(i as int).skip(1) =~= x@.skip(i + 1));
        assert(y@.skip(i as int).skip(1) =~= y@.skip(i + 1));
        i = i + 1;
    }
    if i >= y.len() {
        false
    } else if i >= x.len() {
        true
    } else {
        x[i] < y[i]
    }
}

/// Whether one of `strings` has this text.
pub(crate) fn holds(strings: &Vec<String>, wanted: &str) -> (result: bool)
    ensures
        result == texts(strings@).contains(wanted@),
{
    for i in 0..strings.len()
        invariant
            forall|j: int| 0 <= j < i ==> (#[trigger] strings@[j])@ != wanted@,
    {
        if same(strings[i].as_str(), wanted) {
            assert(texts(strings@)[i as int] == wanted@);
            return true;
        }
    }
    false
}

/// The same strings again.
pub(crate) fn copied(strings: &Vec<String>) -> (copy: Vec<String>)
    ensures
        copy@ == strings@,
{
    let mut copy: Vec<String> = Vec::new();
    for i in 0..strings.len()
        invariant
            copy@ == strings@.take(i as int),
    {
        copy.push(strings[i].clone());
        assert(strings@.take(i + 1) =~= strings@.take(i as int).push(strings@[i as int]));
    }
    assert(strings@.take(strings@.len() as int) =~= strings@);
    copy
}

/// Puts `key` at its place among strings in strictly ascending order, unless it
/// is there.
pub(crate) fn insert_key(keys: &mut Vec<String>, key: &String)
    requires
        ascending(texts(old(keys)@)),
    ensures
        ascending(texts(final(keys)@)),
        forall|k: Seq<char>| #[trigger]
            texts(final(keys)@).contains(k) <==> texts(old(keys)@).contains(k) || k == key@,
{
    let ghost before = texts(keys@);
    let mut at: usize = 0;
    while at < keys.len() && is_before(keys[at].as_str(), key.as_str())
        invariant
            at <= keys@.len(),
            before == texts(keys@),
            forall|j: int| 0 <= j < at ==> precedes(#[trigger] before[j], key@),
        decreases keys@.len() - at,
    {
        assert(before[at as int] == keys@[at as int]@);
        at = at + 1;
    }
    if at < keys.len() && same(keys[at].as_str(), key.as_str()) {
        assert(before[at as int] == key@);
        return;
    }
    let ghost here = keys@;
    keys.insert(at, key.clone());
    let ghost after = texts(keys@);
    proof {
        assert(after =~= before.insert(at as int, key@));
        if at < before.len() {
            assert(before[at as int] == here[at as int]@);
            precedes_total(before[at as int], key@);
            assert(precedes(key@, before[at as int]));
        }
        assert forall|i: int, j: int| 0 <= i < j < after.len() implies precedes(
            #[trigger] after[i],
            #[trigger] after[j],
        ) by {
            if j < at {
                assert(after[i] == before[i] && after[j] == before[j]);
            } else if j == at {
                assert(after[i] == before[i]);
            } else if i < at {
                assert(after[i] == before[i] && after[j] == before[j - 1]);
            } else if i == at {
                assert(after[j] == before[j - 1]);
                if j - 1 > at {
                    precedes_transitive(key@, before[at as int], before[j - 1]);
                }
            } else {
                assert(after[i] == before[i - 1] && after[j] == before[j - 1]);
            }
        }
        assert forall|k: Seq<char>| #[trigger] after.contains(k) <==> before.contains(k) || k
            == key@ by {
            assert(after[at as int] == key@);
            if before.contains(k) {
                let i = before.index_of(k);
                assert(before[i] == k);
                if i < at {
                    assert(after[i] == k);
                } else {
                    assert(after[i + 1] == k);
                }
            }
            if after.contains(k) && k != key@ {
                let i = after.index_of(k);
                assert(after[i] == k);
                if i < at {
                    assert(before[i] == k);
                } else {
                    assert(before[i - 1] == k);
                }
            }
        }
    }
}

/// The text of `a` followed by the text of `b`.
pub(crate) fn joined(a: &str, b: &str) -> (result: String)
    ensures
        result@ == a@ + b@,
{
    a.to_owned().concat(b)
}

/// Texts in strictly ascending order are determined by which texts they are.
pub proof fn ascending_is_unique(a: Seq<Seq<char>>, b: Seq<Seq<char>>)
    requires
        ascending(a),
        ascending(b),
        forall|k: Seq<char>| #[trigger] a.contains(k) <==> b.contains(k),
    ensures
        a == b,
    decreases a.len(),
{
    if a.len() == 0 {
        if b.len() > 0 {
            assert(b.contains(b[0]));
            assert(a.contains(b[0]));
        }
        assert(a =~= b);
    } else {
        assert(a.contains(a[0]));
        assert(b.contains(a[0]));
        assert(b.contains(b[0]));
        assert(a.contains(b[0]));
        let i = b.index_of(a[0]);
        let j = a.index_of(b[0]);
        assert(a[0] == b[0]) by {
            if a[0] != b[0] {
                assert(i > 0 && j > 0);
                assert(precedes(b[0], b[i]));
                assert(precedes(a[0], a[j]));
                precedes_transitive(a[0], b[0], a[0]);
                precedes_irreflexive(a[0]);
            }
        }
        let x = a.skip(1);
        let y = b.skip(1);
        assert forall|k: Seq<char>| #[trigger] x.contains(k) <==> y.contains(k) by {
            precedes_irreflexive(k);
            if x.contains(k) {
                let n = x.index_of(k);
                assert(a[n + 1] == k);
                assert(a.contains(k));
                let m = b.index_of(k);
                assert(precedes(a[0], a[n + 1]));
                assert(m > 0);
                assert(y[m - 1] == k);
            }
            if y.contains(k) {
                let n = y.index_of(k);
                assert(b[n + 1] == k);
                assert(b.contains(k));
                assert(a.contains(k));
                let m = a.index_of(k);
                assert(precedes(b[0], b[n + 1]));
                assert(m > 0);
                assert(x[m - 1] == k);
            }
        }
        ascending_is_unique(x, y);
        assert(a =~= seq![a[0]] + x);
        assert(b =~= seq![b[0]] + y);
    }
}

/// The order of two strings is decided by the first place where they differ: the
/// smaller character comes first there, and so does a string that ends there.
pub proof fn precedes_at_first_difference(a: Seq<char>, b: Seq<char>, k: int)
    requires
        0 <= k <= a.len(),
        k < b.len(),
        forall|j: int| 0 <= j < k ==> #[trigger] a[j] == b[j],
        k == a.len() || a[k] < b[k],
    ensures
        precedes(a, b),
        !precedes(b, a),
    decreases a.len(),
{
    if k > 0 {
        let x = a.skip(1);
        let y = b.skip(1);
        assert(a[0] == b[0]);
        assert forall|j: int| 0 <= j < k - 1 implies #[trigger] x[j] == y[j] by {
            assert(a[j + 1] == b[j + 1]);
        }
        precedes_at_first_difference(x, y, k - 1);
    }
}

/// Two dots occur in a text exactly where two neighbours are dots.
pub proof fn double_dots_are_neighbours(s: Seq<char>)
    ensures
        occurs_in(".."@, s) <==> exists|i: int|
            0 <= i < s.len() - 1 && #[trigger] s[i] == '.' && s[i + 1] == '.',
{
    reveal_strlit("..");
    let two = ".."@;
    if occurs_in(two, s) {
        let i = choose|i: int|
            0 <= i <= s.len() - two.len() && #[trigger] s.subrange(i, i + two.len()) == two;
        assert(s[i] == s.subrange(i, i + two.len())[0]);
        assert(s[i + 1] == s.subrange(i, i + two.len())[1]);
    }
    if exists|i: int| 0 <= i < s.len() - 1 && #[trigger] s[i] == '.' && s[i + 1] == '.' {
        let i = choose|i: int|
            0 <= i < s.len() - 1 && #[trigger] s[i] == '.' && s[i + 1] == '.';
        assert(s.subrange(i, i + two.len()) =~= two);
    }
}

/// The texts of strings are theirs one by one, and a missing string has none.
pub proof fn texts_are_kept(strings: Seq<String>, string: String)
    ensures
        texts(strings).len() == strings.len(),
        forall|i: int| 0 <= i < strings.len() ==> #[trigger] texts(strings)[i] == strings[i]@,
        text(Some(string)) == Some(string@),
        text(None) is None,
{
}

/// In ascending order each text comes before its neighbour, and so before all
/// that follow.
pub proof fn ascending_by_neighbours(keys: Seq<Seq<char>>)
    ensures
        ascending(keys) <==> forall|i: int|
            0 <= i < keys.len() - 1 ==> precedes(#[trigger] keys[i], keys[i + 1]),
    decreases keys.len(),
{
    if forall|i: int| 0 <= i < keys.len() - 1 ==> precedes(#[trigger] keys[i], keys[i + 1]) {
        if keys.len() > 0 {
            let front = keys.drop_last();
            assert forall|i: int| 0 <= i < front.len() - 1 implies precedes(
                #[trigger] front[i],
                front[i + 1],
            ) by {
                assert(front[i] == keys[i] && front[i + 1] == keys[i + 1]);
            }
            ascending_by_neighbours(front);
            assert forall|i: int, j: int| 0 <= i < j < keys.len() implies precedes(
                #[trigger] keys[i],
                #[trigger] keys[j],
            ) by {
                if j < front.len() {
                    assert(front[i] == keys[i] && front[j] == keys[j]);
                } else {
                    assert(precedes(keys[j - 1], keys[j - 1 + 1]));
                    if i < j - 1 {
                        assert(front[i] == keys[i] && front[j - 1] == keys[j - 1]);
                        precedes_transitive(keys[i], keys[j - 1], keys[j]);
                    }
                }
            }
        }
    }
}

} // verus!
