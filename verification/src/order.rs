//! The order of texts by their UTF-8 bytes.

use vstd::prelude::*;
use vstd::utf8::encode_utf8;

use crate::text::lemma_utf8_injective;

verus! {

/// Whether `a` comes before `b`: it is a proper beginning of `b`, or smaller at the first byte in
/// which they differ.
pub open spec fn bytes_before(a: Seq<u8>, b: Seq<u8>) -> bool
    decreases a.len(),
{
    if b.len() == 0 {
        false
    } else if a.len() == 0 {
        true
    } else if a[0] != b[0] {
        a[0] < b[0]
    } else {
        bytes_before(a.drop_first(), b.drop_first())
    }
}

/// Whether the text `a` comes before the text `b`.
pub open spec fn text_before(a: Seq<char>, b: Seq<char>) -> bool {
    bytes_before(encode_utf8(a), encode_utf8(b))
}

proof fn lemma_bytes_before_irreflexive(a: Seq<u8>)
    ensures
        !bytes_before(a, a),
    decreases a.len(),
{
    if a.len() > 0 {
        lemma_bytes_before_irreflexive(a.drop_first());
    }
}

proof fn lemma_bytes_before_transitive(a: Seq<u8>, b: Seq<u8>, c: Seq<u8>)
    requires
        bytes_before(a, b),
        bytes_before(b, c),
    ensures
        bytes_before(a, c),
    decreases a.len(),
{
    if a.len() > 0 && a[0] == b[0] && b[0] == c[0] {
        lemma_bytes_before_transitive(a.drop_first(), b.drop_first(), c.drop_first());
    }
}

proof fn lemma_bytes_before_total(a: Seq<u8>, b: Seq<u8>)
    ensures
        a == b || bytes_before(a, b) || bytes_before(b, a),
    decreases a.len(),
{
    if a.len() == 0 && b.len() == 0 {
        assert(a =~= b);
    } else if a.len() > 0 && b.len() > 0 && a[0] == b[0] {
        lemma_bytes_before_total(a.drop_first(), b.drop_first());
        if a.drop_first() == b.drop_first() {
            assert(a =~= seq![a[0]] + a.drop_first());
            assert(b =~= seq![b[0]] + b.drop_first());
        }
    }
}

/// No text comes before itself.
pub proof fn lemma_text_before_irreflexive(a: Seq<char>)
    ensures
        !text_before(a, a),
{
    lemma_bytes_before_irreflexive(encode_utf8(a));
}

/// What comes before something that comes before a third comes before the third.
pub proof fn lemma_text_before_transitive(a: Seq<char>, b: Seq<char>, c: Seq<char>)
    requires
        text_before(a, b),
        text_before(b, c),
    ensures
        text_before(a, c),
{
    lemma_bytes_before_transitive(encode_utf8(a), encode_utf8(b), encode_utf8(c));
}

/// Of two different texts one comes before the other.
pub proof fn lemma_text_before_total(a: Seq<char>, b: Seq<char>)
    ensures
        a == b || text_before(a, b) || text_before(b, a),
{
    lemma_bytes_before_total(encode_utf8(a), encode_utf8(b));
    if encode_utf8(a) == encode_utf8(b) {
        lemma_utf8_injective(a, b);
    }
}

/// Whether the text `a` comes before the text `b`.
pub fn is_before(a: &str, b: &str) -> (result: bool)
    ensures
        result == text_before(a@, b@),
{
    let left: &[u8] = a.as_bytes();
    let right: &[u8] = b.as_bytes();
    let mut i: usize = 0;
    assert(left@.skip(0) == left@);
    assert(right@.skip(0) == right@);
    while i < left.len() && i < right.len() && left[i] == right[i]
        invariant
            i <= left@.len(),
            i <= right@.len(),
            bytes_before(left@, right@) == bytes_before(
                left@.skip(i as int),
                right@.skip(i as int),
            ),
        decreases left@.len() - i,
    {
        assert(left@.skip(i as int).drop_first() == left@.skip(i + 1));
        assert(right@.skip(i as int).drop_first() == right@.skip(i + 1));
        i = i + 1;
    }
    if i == right.len() {
        false
    } else if i == left.len() {
        true
    } else {
        left[i] < right[i]
    }
}

/// Texts are ordered by the first byte in which they differ, and a text comes before what begins
/// with it.
pub proof fn law_first_difference_decides(
    common: Seq<u8>,
    a: u8,
    b: u8,
    rest_a: Seq<u8>,
    rest_b: Seq<u8>,
)
    ensures
        a < b ==> bytes_before(common + seq![a] + rest_a, common + seq![b] + rest_b),
        bytes_before(common, common + seq![b] + rest_b),
        !bytes_before(common + seq![b] + rest_b, common),
    decreases common.len(),
{
    let x = common + seq![a] + rest_a;
    let y = common + seq![b] + rest_b;
    if common.len() > 0 {
        let less = common.drop_first();
        law_first_difference_decides(less, a, b, rest_a, rest_b);
        assert(x.drop_first() =~= less + seq![a] + rest_a);
        assert(y.drop_first() =~= less + seq![b] + rest_b);
        assert(x[0] == common[0] && y[0] == common[0]);
    } else {
        assert(x[0] == a && y[0] == b);
    }
}

} // verus!
