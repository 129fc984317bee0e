use vstd::prelude::*;
use crate::text::chars_of;

verus! {

/// Lexicographic order of character sequences by code point, the order in
/// which `String`'s comparison puts strings.
pub open spec fn chars_le(a: Seq<char>, b: Seq<char>) -> bool
    decreases a.len(),
{
    if a.len() == 0 {
        true
    } else if b.len() == 0 {
        false
    } else if a[0] < b[0] {
        true
    } else if a[0] == b[0] {
        chars_le(a.drop_first(), b.drop_first())
    } else {
        false
    }
}

/// Any two sequences are ordered one way or the other.
pub proof fn lemma_chars_le_total(a: Seq<char>, b: Seq<char>)
    ensures
        chars_le(a, b) || chars_le(b, a),
    decreases a.len(),
{
    if a.len() > 0 && b.len() > 0 && a[0] == b[0] {
        lemma_chars_le_total(a.drop_first(), b.drop_first());
    }
}

/// The order is transitive.
pub proof fn lemma_chars_le_trans(a: Seq<char>, b: Seq<char>, c: Seq<char>)
    requires
        chars_le(a, b),
        chars_le(b, c),
    ensures
        chars_le(a, c),
    decreases a.len(),
{
    if a.len() > 0 && b.len() > 0 && c.len() > 0 && a[0] == b[0] && b[0] == c[0] {
        lemma_chars_le_trans(a.drop_first(), b.drop_first(), c.drop_first());
    }
}

/// Whether `a` comes no later than `b` in code-point order.
pub fn str_le(a: &str, b: &str) -> (r: bool)
    ensures
        r == chars_le(a@, b@),
{
    let x = chars_of(a);
    let y = chars_of(b);
    let mut i: usize = 0;
    assert(a@.skip(0) =~= a@);
    assert(b@.skip(0) =~= b@);
    while i < x.len() && i < y.len()
        invariant
            i <= x.len(),
            i <= y.len(),
            x@ == a@,
            y@ == b@,
            x@.take(i as int) == y@.take(i as int),
            chars_le(a@, b@) == chars_le(a@.skip(i as int), b@.skip(i as int)),
        decreases x.len() - i,
    {
        let ghost xs = a@.skip(i as int);
        let ghost ys = b@.skip(i as int);
        assert(xs[0] == x@[i as int] && ys[0] == y@[i as int]);
        if x[i] < y[i] {
            return true;
        }
        if x[i] != y[i] {
            return false;
        }
        assert(xs.drop_first() =~= a@.skip(i + 1));
        assert(ys.drop_first() =~= b@.skip(i + 1));
        assert(x@.take(i + 1) =~= x@.take(i as int).push(x@[i as int]));
        assert(y@.take(i + 1) =~= y@.take(i as int).push(y@[i as int]));
        i = i + 1;
    }
    assert(a@.skip(i as int).len() == 0 || b@.skip(i as int).len() == 0);
    i == x.len()
}

/// The strings sorted into code-point order.
pub fn sort_strings(items: Vec<String>) -> (r: Vec<String>)
    ensures
        r@.map_values(|s: String| s@).to_multiset() == items@.map_values(|s: String| s@).to_multiset(),
        r.len() == items.len(),
        forall|i: int, j: int| 0 <= i < j < r.len() ==> chars_le((#[trigger] r@[i])@, (#[trigger] r@[j])@),
{
    let ghost input = items@.map_values(|s: String| s@);
    let mut sorted: Vec<String> = Vec::new();
    let ghost mut done: int = 0;
    let n = items.len();
    let ghost mut seen: Seq<Seq<char>> = Seq::empty();
    assert(input.take(0) =~= seen);
    assert(sorted@.map_values(|s: String| s@) =~= seen);
    for item in it: items.into_iter()
        invariant
            it.seq() == items@,
            input == items@.map_values(|s: String| s@),
            done == it.index(),
            seen == input.take(done),
            sorted@.map_values(|s: String| s@).to_multiset() == seen.to_multiset(),
            sorted.len() == done,
            forall|i: int, j: int| 0 <= i < j < sorted.len() ==> chars_le((#[trigger] sorted@[i])@, (#[trigger] sorted@[j])@),
    {
        let ghost before = sorted@.map_values(|s: String| s@);
        let mut p: usize = 0;
        while p < sorted.len() && str_le(sorted[p].as_str(), item.as_str())
            invariant
                p <= sorted.len(),
                forall|k: int| 0 <= k < p ==> chars_le((#[trigger] sorted@[k])@, item@),
            decreases sorted.len() - p,
        {
            p = p + 1;
        }
        proof {
            if p < sorted.len() {
                lemma_chars_le_total(sorted@[p as int]@, item@);
            }
        }
        let ghost iv = item@;
        let ghost old_sorted = sorted@;
        sorted.insert(p, item);
        proof {
            assert forall|i: int, j: int| 0 <= i < j < sorted.len() implies chars_le((#[trigger] sorted@[i])@, (#[trigger] sorted@[j])@) by {
                if j < p {
                    assert(sorted@[i] == old_sorted[i] && sorted@[j] == old_sorted[j]);
                } else if j == p {
                    assert(sorted@[i] == old_sorted[i]);
                } else if i == p {
                    assert(sorted@[j] == old_sorted[j - 1]);
                    if j - 1 > p {
                        lemma_chars_le_trans(iv, old_sorted[p as int]@, old_sorted[j - 1]@);
                    }
                } else if i < p {
                    assert(sorted@[i] == old_sorted[i] && sorted@[j] == old_sorted[j - 1]);
                    assert(chars_le(old_sorted[i]@, iv));
                    if j - 1 >= p {
                        lemma_chars_le_trans(old_sorted[i]@, iv, old_sorted[p as int]@);
                        if j - 1 > p {
                            lemma_chars_le_trans(old_sorted[i]@, old_sorted[p as int]@, old_sorted[j - 1]@);
                        }
                    }
                } else {
                    assert(sorted@[i] == old_sorted[i - 1] && sorted@[j] == old_sorted[j - 1]);
                }
            }
            let after = sorted@.map_values(|s: String| s@);
            assert(after =~= before.insert(p as int, iv));
            vstd::seq_lib::to_multiset_insert(before, p as int, iv);
            vstd::seq_lib::to_multiset_build(seen, iv);
            assert(input.take(done + 1) =~= seen.push(iv));
            seen = seen.push(iv);
            done = done + 1;
        }
    }
    assert(input.take(n as int) =~= input);
    sorted
}

} // verus!
