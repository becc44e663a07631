//! The order of keys: byte strings compared lexicographically.

use vstd::prelude::*;

verus! {

/// Whether `a` comes strictly before `b`.
pub open spec fn lex_lt(a: Seq<u8>, b: Seq<u8>) -> bool
    decreases a.len(),
{
    if b.len() == 0 {
        false
    } else if a.len() == 0 {
        true
    } else if a[0] != b[0] {
        a[0] < b[0]
    } else {
        lex_lt(a.drop_first(), b.drop_first())
    }
}

/// Whether `a` comes before `b` or is `b`.
pub open spec fn lex_le(a: Seq<u8>, b: Seq<u8>) -> bool {
    a == b || lex_lt(a, b)
}

/// Whether `key` begins with `prefix`.
pub open spec fn has_prefix(key: Seq<u8>, prefix: Seq<u8>) -> bool {
    prefix.len() <= key.len() && key.subrange(0, prefix.len() as int) == prefix
}

/// What two keys have in common at their start does not order them.
pub proof fn lemma_lex_common_prefix(p: Seq<u8>, a: Seq<u8>, b: Seq<u8>)
    ensures
        lex_lt(p + a, p + b) == lex_lt(a, b),
    decreases p.len(),
{
    if p.len() == 0 {
        assert(p + a =~= a);
        assert(p + b =~= b);
    } else {
        assert((p + a).drop_first() =~= p.drop_first() + a);
        assert((p + b).drop_first() =~= p.drop_first() + b);
        lemma_lex_common_prefix(p.drop_first(), a, b);
    }
}

/// No key comes before itself.
pub proof fn lemma_lex_irreflexive(a: Seq<u8>)
    ensures
        !lex_lt(a, a),
    decreases a.len(),
{
    if a.len() > 0 {
        lemma_lex_irreflexive(a.drop_first());
    }
}

/// The order is transitive.
pub proof fn lemma_lex_transitive(a: Seq<u8>, b: Seq<u8>, c: Seq<u8>)
    requires
        lex_lt(a, b),
        lex_lt(b, c),
    ensures
        lex_lt(a, c),
    decreases a.len(),
{
    if a.len() > 0 && b.len() > 0 && c.len() > 0 && a[0] == b[0] && b[0] == c[0] {
        lemma_lex_transitive(a.drop_first(), b.drop_first(), c.drop_first());
    }
}

/// Two different keys are ordered one way or the other.
pub proof fn lemma_lex_total(a: Seq<u8>, b: Seq<u8>)
    ensures
        lex_lt(a, b) || a == b || lex_lt(b, a),
    decreases a.len(),
{
    if a.len() == 0 || b.len() == 0 {
        if a.len() == 0 && b.len() == 0 {
            assert(a =~= b);
        }
    } else if a[0] == b[0] {
        lemma_lex_total(a.drop_first(), b.drop_first());
        if a.drop_first() == b.drop_first() {
            assert(a =~= seq![a[0]] + a.drop_first());
            assert(b =~= seq![b[0]] + b.drop_first());
        }
    }
}

/// Two keys are not ordered both ways.
pub proof fn lemma_lex_asymmetric(a: Seq<u8>, b: Seq<u8>)
    requires
        lex_lt(a, b),
    ensures
        !lex_lt(b, a),
        a != b,
{
    if lex_lt(b, a) {
        lemma_lex_transitive(a, b, a);
    }
    lemma_lex_irreflexive(a);
}

/// A key with a zero byte appended comes directly after the key: it is after
/// it, and nothing lies between.
pub proof fn lemma_lex_successor(k: Seq<u8>, x: Seq<u8>)
    ensures
        lex_lt(k, k.push(0)),
        lex_lt(k, x) ==> lex_le(k.push(0), x),
    decreases k.len(),
{
    let s = k.push(0);
    if k.len() == 0 {
        assert(s[0] == 0);
        if x.len() > 0 && x[0] == 0 {
            assert(s.drop_first() =~= Seq::<u8>::empty());
            if x.drop_first().len() == 0 {
                assert(x =~= s);
            } else {
                assert(lex_lt(s.drop_first(), x.drop_first()));
            }
        }
    } else {
        assert(s.drop_first() =~= k.drop_first().push(0));
        if x.len() > 0 && x[0] == k[0] {
            lemma_lex_successor(k.drop_first(), x.drop_first());
            if lex_lt(k, x) && s.drop_first() == x.drop_first() {
                assert(s =~= seq![s[0]] + s.drop_first());
                assert(x =~= seq![x[0]] + x.drop_first());
            }
        } else {
            lemma_lex_successor(k.drop_first(), k.drop_first());
        }
    }
}

/// A prefix comes no later than a key that begins with it.
pub proof fn lemma_prefix_le(key: Seq<u8>, prefix: Seq<u8>)
    requires
        has_prefix(key, prefix),
    ensures
        lex_le(prefix, key),
    decreases prefix.len(),
{
    if prefix.len() == 0 {
        if key.len() == 0 {
            assert(prefix =~= key);
        }
    } else {
        assert(prefix[0] == key.subrange(0, prefix.len() as int)[0]);
        assert(key.drop_first().subrange(0, prefix.drop_first().len() as int)
            =~= key.subrange(0, prefix.len() as int).drop_first());
        lemma_prefix_le(key.drop_first(), prefix.drop_first());
        if prefix.drop_first() == key.drop_first() {
            assert(prefix =~= seq![prefix[0]] + prefix.drop_first());
            assert(key =~= seq![key[0]] + key.drop_first());
        }
    }
}

/// The keys that begin with a prefix form one run: whatever lies between the
/// prefix and such a key begins with it too.
pub proof fn lemma_prefix_run(key: Seq<u8>, later: Seq<u8>, prefix: Seq<u8>)
    requires
        has_prefix(later, prefix),
        lex_le(prefix, key),
        lex_lt(key, later),
    ensures
        has_prefix(key, prefix),
    decreases prefix.len(),
{
    if prefix.len() == 0 {
        assert(key.subrange(0, 0) =~= prefix);
    } else {
        assert(prefix[0] == later.subrange(0, prefix.len() as int)[0]);
        assert(key.len() > 0);
        assert(key[0] == prefix[0]);
        let p = prefix.drop_first();
        let k = key.drop_first();
        let l = later.drop_first();
        assert(l.subrange(0, p.len() as int)
            =~= later.subrange(0, prefix.len() as int).drop_first());
        lemma_prefix_run(k, l, p);
        assert(key.subrange(0, prefix.len() as int) =~= prefix) by {
            assert(k.subrange(0, p.len() as int) == p);
            assert forall|i: int| 0 <= i < prefix.len() implies key[i] == prefix[i] by {
                if i > 0 {
                    assert(k.subrange(0, p.len() as int)[i - 1] == p[i - 1]);
                }
            }
        }
    }
}

/// Whether `a` comes strictly before `b`.
pub fn key_before(a: &[u8], b: &[u8]) -> (before: bool)
    ensures
        before == lex_lt(a@, b@),
{
    let mut i: usize = 0;
    proof {
        assert(a@.skip(0) =~= a@);
        assert(b@.skip(0) =~= b@);
    }
    while i < a.len() && i < b.len()
        invariant
            i <= a@.len(),
            i <= b@.len(),
            lex_lt(a@, b@) == lex_lt(a@.skip(i as int), b@.skip(i as int)),
        decreases a@.len() - i,
    {
        if a[i] != b[i] {
            return a[i] < b[i];
        }
        proof {
            assert(a@.skip(i as int).drop_first() =~= a@.skip(i + 1));
            assert(b@.skip(i as int).drop_first() =~= b@.skip(i + 1));
        }
        i = i + 1;
    }
    i < b.len()
}

/// Whether `key` begins with `prefix`.
pub fn starts_with(key: &[u8], prefix: &[u8]) -> (starts: bool)
    ensures
        starts == has_prefix(key@, prefix@),
{
    if key.len() < prefix.len() {
        return false;
    }
    let mut i: usize = 0;
    while i < prefix.len()
        invariant
            prefix@.len() <= key@.len(),
            i <= prefix@.len(),
            forall|j: int| 0 <= j < i ==> key@[j] == prefix@[j],
        decreases prefix@.len() - i,
    {
        if key[i] != prefix[i] {
            proof {
                assert(key@.subrange(0, prefix@.len() as int)[i as int] == key@[i as int]);
            }
            return false;
        }
        i = i + 1;
    }
    proof {
        assert(key@.subrange(0, prefix@.len() as int) =~= prefix@);
    }
    true
}

} // verus!
