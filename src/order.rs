use vstd::prelude::*;

verus! {

/// Lexicographic "strictly less than" on character sequences: a proper prefix
/// comes first, otherwise the first differing character decides.
pub open spec fn seq_lt(a: Seq<char>, b: Seq<char>) -> bool
    decreases a.len(),
{
    if a.len() == 0 {
        b.len() > 0
    } else if b.len() == 0 {
        false
    } else if a[0] != b[0] {
        a[0] < b[0]
    } else {
        seq_lt(a.drop_first(), b.drop_first())
    }
}

pub proof fn lemma_seq_lt_irreflexive(a: Seq<char>)
    ensures
        !seq_lt(a, a),
    decreases a.len(),
{
    if a.len() > 0 {
        lemma_seq_lt_irreflexive(a.drop_first());
    }
}

pub proof fn lemma_seq_lt_asymmetric(a: Seq<char>, b: Seq<char>)
    ensures
        !(seq_lt(a, b) && seq_lt(b, a)),
    decreases a.len(),
{
    if a.len() > 0 && b.len() > 0 && a[0] == b[0] {
        lemma_seq_lt_asymmetric(a.drop_first(), b.drop_first());
    }
}

pub proof fn lemma_seq_lt_transitive(a: Seq<char>, b: Seq<char>, c: Seq<char>)
    requires
        seq_lt(a, b),
        seq_lt(b, c),
    ensures
        seq_lt(a, c),
    decreases a.len(),
{
    if a.len() > 0 && b.len() > 0 && c.len() > 0 && a[0] == b[0] && b[0] == c[0] {
        lemma_seq_lt_transitive(a.drop_first(), b.drop_first(), c.drop_first());
    }
}

pub proof fn lemma_seq_lt_total(a: Seq<char>, b: Seq<char>)
    requires
        a != b,
    ensures
        seq_lt(a, b) || seq_lt(b, a),
    decreases a.len(),
{
    if a.len() == 0 {
        assert(b.len() > 0) by {
            if b.len() == 0 {
                assert(a =~= b);
            }
        }
    } else if b.len() > 0 && a[0] == b[0] {
        if a.drop_first() == b.drop_first() {
            assert(a =~= seq![a[0]] + a.drop_first());
            assert(b =~= seq![b[0]] + b.drop_first());
        }
        lemma_seq_lt_total(a.drop_first(), b.drop_first());
    }
}

/// Compares two strings character by character.
pub fn str_less(a: &str, b: &str) -> (r: bool)
    ensures
        r == seq_lt(a@, b@),
{
    let la = a.unicode_len();
    let lb = b.unicode_len();
    let mut i: usize = 0;
    assert(a@.skip(0) =~= a@);
    assert(b@.skip(0) =~= b@);
    while i < la && i < lb
        invariant
            la == a@.len(),
            lb == b@.len(),
            i <= la,
            i <= lb,
            seq_lt(a@, b@) == seq_lt(a@.skip(i as int), b@.skip(i as int)),
        decreases la - i,
    {
        let ca = a.get_char(i);
        let cb = b.get_char(i);
        let ghost sa = a@.skip(i as int);
        let ghost sb = b@.skip(i as int);
        if ca != cb {
            return ca < cb;
        }
        assert(sa.drop_first() =~= a@.skip(i + 1));
        assert(sb.drop_first() =~= b@.skip(i + 1));
        i = i + 1;
    }
    i == la && i < lb
}

} // verus!
