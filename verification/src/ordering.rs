//! Orders: sort keys as sequences of integers, compared like words in a
//! dictionary, and a stable sort of rows by such a key.
use vstd::prelude::*;
use vstd::relations::sorted_by;
use vstd::seq_lib::{to_multiset_build, to_multiset_contains, to_multiset_len, to_multiset_remove};
use crate::relation::{computes_key, keys_distinct};

verus! {

/// The dictionary order of two keys: the first place where they differ
/// decides, and a key comes before every key that it begins.
pub open spec fn lex_le(a: Seq<i128>, b: Seq<i128>) -> bool
    decreases a.len(),
{
    if a.len() == 0 {
        true
    } else if b.len() == 0 {
        false
    } else if a[0] != b[0] {
        a[0] < b[0]
    } else {
        lex_le(a.drop_first(), b.drop_first())
    }
}

/// The order of rows by their keys.
pub open spec fn by_key<T>(key: spec_fn(T) -> Seq<i128>) -> spec_fn(T, T) -> bool {
    |a: T, b: T| lex_le(key(a), key(b))
}

/// The key of a text: its characters, then an end mark that is below every
/// character, so that what follows the text in a key cannot be taken for a
/// part of it.
pub open spec fn text_key(text: Seq<char>) -> Seq<i128> {
    text.map_values(|c: char| c as u32 as i128).push(-1i128)
}

/// Of two keys, one is before the other or they are the same.
pub proof fn lemma_lex_total(a: Seq<i128>, b: Seq<i128>)
    ensures
        lex_le(a, b) || lex_le(b, a),
        lex_le(a, b) && lex_le(b, a) ==> a == b,
    decreases a.len(),
{
    if a.len() > 0 && b.len() > 0 && a[0] == b[0] {
        lemma_lex_total(a.drop_first(), b.drop_first());
        if lex_le(a, b) && lex_le(b, a) {
            assert(a =~= seq![a[0]] + a.drop_first());
            assert(b =~= seq![b[0]] + b.drop_first());
        }
    } else if a.len() == 0 && b.len() == 0 {
        assert(a =~= b);
    }
}

/// The dictionary order is transitive.
pub proof fn lemma_lex_transitive(a: Seq<i128>, b: Seq<i128>, c: Seq<i128>)
    requires
        lex_le(a, b),
        lex_le(b, c),
    ensures
        lex_le(a, c),
    decreases a.len(),
{
    if a.len() > 0 && b.len() > 0 && c.len() > 0 && a[0] == b[0] && b[0] == c[0] {
        lemma_lex_transitive(a.drop_first(), b.drop_first(), c.drop_first());
    }
}

/// Every key is before or at itself.
pub proof fn lemma_lex_reflexive(a: Seq<i128>)
    ensures
        lex_le(a, a),
    decreases a.len(),
{
    if a.len() > 0 {
        lemma_lex_reflexive(a.drop_first());
    }
}

/// Whether `a` is before or at `b` in the dictionary order.
pub fn key_le(a: &Vec<i128>, b: &Vec<i128>) -> (r: bool)
    ensures
        r == lex_le(a@, b@),
{
    let mut i: usize = 0;
    assert(a@.skip(0) =~= a@);
    assert(b@.skip(0) =~= b@);
    while i < a.len() && i < b.len()
        invariant
            i <= a.len(),
            i <= b.len(),
            lex_le(a@, b@) == lex_le(a@.skip(i as int), b@.skip(i as int)),
        decreases a.len() - i,
    {
        proof {
            assert(a@.skip(i as int)[0] == a@[i as int]);
            assert(b@.skip(i as int)[0] == b@[i as int]);
            assert(a@.skip(i as int).drop_first() =~= a@.skip(i + 1));
            assert(b@.skip(i as int).drop_first() =~= b@.skip(i + 1));
        }
        if a[i] != b[i] {
            return a[i] < b[i];
        }
        i += 1;
    }
    i >= a.len()
}

/// The key of a text.
pub fn make_text_key(text: &str) -> (r: Vec<i128>)
    ensures
        r@ == text_key(text@),
{
    let mut out: Vec<i128> = Vec::new();
    for c in it: text.chars()
        invariant
            it.seq() == text@,
            out@ == text@.take(it.index() as int).map_values(|c: char| c as u32 as i128),
    {
        out.push(c as u32 as i128);
        assert(text@.take(it.index() + 1) =~= text@.take(it.index() as int).push(c));
        assert(text@.take(it.index() + 1).map_values(|c: char| c as u32 as i128) =~= text@.take(
            it.index() as int,
        ).map_values(|c: char| c as u32 as i128).push(c as u32 as i128));
    }
    assert(text@.take(text@.len() as int) =~= text@);
    out.push(-1);
    out
}

/// Putting a row into a sequence adds it to what the sequence holds.
pub proof fn lemma_insert_to_multiset<T>(s: Seq<T>, at: int, row: T)
    requires
        0 <= at <= s.len(),
    ensures
        s.insert(at, row).to_multiset() == s.to_multiset().insert(row),
{
    let more = s.insert(at, row);
    to_multiset_remove(more, at);
    assert(more.remove(at) =~= s);
    assert(more[at] == row);
    more.to_multiset_ensures();
    assert(more.contains(row));
    assert(more.to_multiset() =~= s.to_multiset().insert(row));
}

/// Two sequences that hold the same rows equally often hold the same rows.
pub proof fn lemma_same_rows<T>(a: Seq<T>, b: Seq<T>)
    requires
        a.to_multiset() == b.to_multiset(),
    ensures
        a.len() == b.len(),
        forall|x: T| a.contains(x) <==> b.contains(x),
{
    to_multiset_len(a);
    to_multiset_len(b);
    assert forall|x: T| a.contains(x) <==> b.contains(x) by {
        to_multiset_contains(a, x);
        to_multiset_contains(b, x);
    }
}

/// Rows in another order still have distinct keys.
pub proof fn lemma_reordered_distinct<T, K>(a: Seq<T>, b: Seq<T>, key: spec_fn(T) -> K)
    requires
        keys_distinct(a, key),
        a.to_multiset() == b.to_multiset(),
    ensures
        keys_distinct(b, key),
{
    lemma_same_rows(a, b);
    assert(a.no_duplicates()) by {
        assert forall|i: int, j: int| 0 <= i < a.len() && 0 <= j < a.len() && i != j implies a[i]
            != a[j] by {
            assert(key(a[i]) != key(a[j]));
        }
    }
    a.lemma_multiset_has_no_duplicates();
    b.lemma_multiset_has_no_duplicates_conv();
    assert forall|i: int, j: int| 0 <= i < b.len() && 0 <= j < b.len() && i != j implies key(
        #[trigger] b[i],
    ) != key(#[trigger] b[j]) by {
        assert(b.contains(b[i]));
        assert(b.contains(b[j]));
        let m = choose|m: int| 0 <= m < a.len() && a[m] == b[i];
        let n = choose|n: int| 0 <= n < a.len() && a[n] == b[j];
        assert(b[i] != b[j]);
        assert(key(a[m]) != key(a[n]));
    }
}

/// The rows of `v` in the order of their keys. Rows with the same key keep
/// the order in which they came.
pub fn sort_by_key<T, K: Fn(&T) -> Vec<i128>>(
    v: Vec<T>,
    key: &K,
    Ghost(skey): Ghost<spec_fn(T) -> Seq<i128>>,
) -> (r: Vec<T>)
    requires
        computes_key(*key, skey),
    ensures
        sorted_by(r@, by_key(skey)),
        r@.to_multiset() == v@.to_multiset(),
{
    let mut out: Vec<T> = Vec::new();
    let mut keys: Vec<Vec<i128>> = Vec::new();
    let ghost src = v@;
    assert(src.take(0) =~= out@);
    for row in it: v
        invariant
            it.seq() == src,
            computes_key(*key, skey),
            keys@.len() == out@.len(),
            forall|i: int| 0 <= i < out@.len() ==> (#[trigger] keys@[i])@ == skey(out@[i]),
            sorted_by(out@, by_key(skey)),
            out@.to_multiset() == src.take(it.index() as int).to_multiset(),
    {
        let k = key(&row);
        let mut at: usize = out.len();
        while at > 0 && !key_le(&keys[at - 1], &k)
            invariant
                at <= out@.len(),
                keys@.len() == out@.len(),
                k@ == skey(row),
                forall|i: int| 0 <= i < out@.len() ==> (#[trigger] keys@[i])@ == skey(out@[i]),
                forall|i: int| at <= i < out@.len() ==> lex_le(k@, skey(#[trigger] out@[i])),
            decreases at,
        {
            proof {
                lemma_lex_total(keys@[at - 1]@, k@);
            }
            at -= 1;
        }
        proof {
            let before = out@;
            let after = before.insert(at as int, row);
            assert forall|i: int, j: int| 0 <= i < j < after.len() implies #[trigger] by_key(skey)(
                after[i],
                after[j],
            ) by {
                if j < at {
                    assert(by_key(skey)(before[i], before[j]));
                } else if j == at {
                    assert(lex_le(skey(before[at - 1]), k@));
                    if i < at - 1 {
                        assert(by_key(skey)(before[i], before[at - 1]));
                        lemma_lex_transitive(skey(before[i]), skey(before[at - 1]), k@);
                    }
                } else if i < at {
                    assert(by_key(skey)(before[i], before[j - 1]));
                } else if i == at {
                    assert(lex_le(k@, skey(before[j - 1])));
                } else {
                    assert(by_key(skey)(before[i - 1], before[j - 1]));
                }
            }
            lemma_insert_to_multiset(before, at as int, row);
            to_multiset_build(src.take(it.index() as int), row);
            assert(src.take(it.index() + 1) =~= src.take(it.index() as int).push(row));
        }
        out.insert(at, row);
        keys.insert(at, k);
    }
    assert(src.take(src.len() as int) =~= src);
    out
}

} // verus!
