//! Putting texts in order, each text once.

use vstd::prelude::*;
use vstd::utf8::encode_utf8;
use vstd::utf8::encode_utf8_decode_utf8;

verus! {

/// Whether `a` comes before `b`, byte by byte: at the first place where
/// they differ `a` has the smaller byte, or `a` ends there and `b` goes on.
pub open spec fn bytes_before(a: Seq<u8>, b: Seq<u8>) -> bool
    decreases a.len(),
{
    if b.len() == 0 {
        false
    } else if a.len() == 0 {
        true
    } else if a[0] != b[0] {
        a[0] < b[0]
    } else {
        bytes_before(a.drop_first(), b.drop_first())
    }
}

/// Whether the text `a` comes before the text `b`: the order of strings,
/// which goes by their bytes.
pub open spec fn text_before(a: Seq<char>, b: Seq<char>) -> bool {
    bytes_before(encode_utf8(a), encode_utf8(b))
}

/// Every text comes before all that follow it in the list.
pub open spec fn ascending(texts: Seq<String>) -> bool {
    forall|i: int, j: int| 0 <= i < j < texts.len() ==> text_before(texts[i]@, texts[j]@)
}

/// Whether a list holds a text.
pub open spec fn holds(texts: Seq<String>, text: Seq<char>) -> bool {
    exists|k: int| 0 <= k < texts.len() && (#[trigger] texts[k])@ == text
}

/// Of two different byte strings one comes before the other.
pub proof fn lemma_before_total(a: Seq<u8>, b: Seq<u8>)
    ensures
        bytes_before(a, b) || a == b || bytes_before(b, a),
    decreases a.len(),
{
    if a.len() > 0 && b.len() > 0 && a[0] == b[0] {
        lemma_before_total(a.drop_first(), b.drop_first());
        if a.drop_first() == b.drop_first() {
            assert(a =~= seq![a[0]] + a.drop_first());
            assert(b =~= seq![b[0]] + b.drop_first());
        }
    } else if a.len() == 0 && b.len() == 0 {
        assert(a =~= b);
    }
}

/// What comes before something that comes before a third comes before the
/// third.
pub proof fn lemma_before_transitive(a: Seq<u8>, b: Seq<u8>, c: Seq<u8>)
    requires
        bytes_before(a, b),
        bytes_before(b, c),
    ensures
        bytes_before(a, c),
    decreases a.len(),
{
    if a.len() > 0 && b.len() > 0 && c.len() > 0 && a[0] == b[0] && b[0] == c[0] {
        lemma_before_transitive(a.drop_first(), b.drop_first(), c.drop_first());
    }
}

/// Texts with the same bytes are the same text.
pub proof fn lemma_same_bytes_same_text(a: Seq<char>, b: Seq<char>)
    requires
        encode_utf8(a) == encode_utf8(b),
    ensures
        a == b,
{
    encode_utf8_decode_utf8(a);
    encode_utf8_decode_utf8(b);
}

/// Tells whether one text comes before another.
pub fn comes_before(a: &str, b: &str) -> (before: bool)
    ensures
        before == text_before(a@, b@),
{
    let x: &[u8] = a.as_bytes();
    let y: &[u8] = b.as_bytes();
    let mut k: usize = 0;
    assert(x@.skip(0) =~= x@ && y@.skip(0) =~= y@);
    while k < x.len() && k < y.len()
        invariant
            k <= x@.len(),
            k <= y@.len(),
            x@ == encode_utf8(a@),
            y@ == encode_utf8(b@),
            bytes_before(x@, y@) == bytes_before(x@.skip(k as int), y@.skip(k as int)),
        decreases x@.len() - k,
    {
        proof {
            assert(x@.skip(k as int)[0] == x@[k as int]);
            assert(y@.skip(k as int)[0] == y@[k as int]);
            assert(x@.skip(k as int).drop_first() =~= x@.skip(k + 1));
            assert(y@.skip(k as int).drop_first() =~= y@.skip(k + 1));
        }
        if x[k] != y[k] {
            return x[k] < y[k];
        }
        k += 1;
    }
    k < y.len()
}

/// Puts a text into a list that is in order. The list stays in order, and
/// a text that it holds already is not put in again.
pub fn insert_in_order(sorted: &mut Vec<String>, text: String)
    requires
        ascending(old(sorted)@),
    ensures
        ascending(final(sorted)@),
        forall|t: Seq<char>|
            holds(final(sorted)@, t) <==> (holds(old(sorted)@, t) || t == text@),
{
    let ghost before = sorted@;
    let mut at: usize = 0;
    while at < sorted.len() && comes_before(sorted[at].as_str(), text.as_str())
        invariant
            sorted@ == before,
            at <= before.len(),
            forall|i: int| 0 <= i < at ==> text_before(before[i]@, text@),
        decreases before.len() - at,
    {
        at += 1;
    }
    if at < sorted.len() && sorted[at] == text {
        proof {
            assert(holds(before, text@));
        }
        return ;
    }
    sorted.insert(at, text);
    proof {
        let after = sorted@;
        before.insert_ensures(at as int, text);
        assert forall|i: int| 0 <= i < after.len() implies #[trigger] after[i] == (if i < at {
            before[i]
        } else if i == at {
            text
        } else {
            before[i - 1]
        }) by {}
        if at < before.len() {
            lemma_before_total(encode_utf8(before[at as int]@), encode_utf8(text@));
            if encode_utf8(before[at as int]@) == encode_utf8(text@) {
                lemma_same_bytes_same_text(before[at as int]@, text@);
            }
            assert(text_before(text@, before[at as int]@));
        }
        assert forall|i: int, j: int| 0 <= i < j < after.len() implies text_before(
            after[i]@,
            after[j]@,
        ) by {
            if j == at {
            } else if i == at {
                if j - 1 > at {
                    assert(ascending(before));
                    assert(text_before(before[at as int]@, before[j - 1]@));
                    lemma_before_transitive(
                        encode_utf8(text@),
                        encode_utf8(before[at as int]@),
                        encode_utf8(before[j - 1]@),
                    );
                }
            } else if i < at && j > at {
                assert(text_before(before[i]@, before[j - 1]@));
            } else {
            }
        }
        assert forall|t: Seq<char>| holds(after, t) <==> (holds(before, t) || t == text@) by {
            if holds(after, t) {
                let k = choose|k: int| 0 <= k < after.len() && (#[trigger] after[k])@ == t;
                if k < at {
                    assert(before[k]@ == t);
                } else if k > at {
                    assert(before[k - 1]@ == t);
                }
            }
            if holds(before, t) {
                let k = choose|k: int| 0 <= k < before.len() && (#[trigger] before[k])@ == t;
                if k < at {
                    assert(after[k]@ == t);
                } else {
                    assert(after[k + 1]@ == t);
                }
            }
            if t == text@ {
                assert(after[at as int]@ == t);
            }
        }
    }
}

/// Puts the texts of a list in order, each text once.
pub fn in_order(texts: &Vec<String>) -> (sorted: Vec<String>)
    ensures
        ascending(sorted@),
        forall|t: Seq<char>| holds(sorted@, t) <==> holds(texts@, t),
{
    let mut sorted: Vec<String> = Vec::new();
    let mut k: usize = 0;
    while k < texts.len()
        invariant
            k <= texts@.len(),
            ascending(sorted@),
            forall|t: Seq<char>| holds(sorted@, t) <==> holds(texts@.take(k as int), t),
        decreases texts@.len() - k,
    {
        let ghost earlier = sorted@;
        let text: String = texts[k].clone();
        insert_in_order(&mut sorted, text);
        proof {
            let done = texts@.take(k as int);
            let next = texts@.take(k + 1);
            assert forall|t: Seq<char>| holds(sorted@, t) <==> holds(next, t) by {
                if holds(next, t) {
                    let i = choose|i: int| 0 <= i < next.len() && (#[trigger] next[i])@ == t;
                    if i < k {
                        assert(done[i]@ == t);
                    }
                }
                if holds(done, t) {
                    let i = choose|i: int| 0 <= i < done.len() && (#[trigger] done[i])@ == t;
                    assert(next[i]@ == t);
                }
                if t == texts@[k as int]@ {
                    assert(next[k as int]@ == t);
                }
            }
        }
        k += 1;
    }
    proof {
        assert(texts@.take(k as int) =~= texts@);
    }
    sorted
}

} // verus!
