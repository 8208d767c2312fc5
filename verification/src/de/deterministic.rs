//! Checking that the keys of a map come in deterministic order.
use crate::config::Config;
use crate::enc::write::Writer;
use crate::enc::{Encode, Encoder, EncoderImpl};
use crate::error::DecodeError;
use vstd::prelude::*;

verus! {

/// Whether `a` comes strictly before `b` in bytewise lexicographic order (a proper prefix comes
/// first).
pub open spec fn lex_lt(a: Seq<u8>, b: Seq<u8>) -> bool
    decreases a.len(),
{
    if a.len() == 0 {
        b.len() > 0
    } else if b.len() == 0 {
        false
    } else if a[0] != b[0] {
        a[0] < b[0]
    } else {
        lex_lt(a.drop_first(), b.drop_first())
    }
}

/// No byte string comes before itself.
pub proof fn lemma_lex_lt_irreflexive(a: Seq<u8>)
    ensures
        !lex_lt(a, a),
    decreases a.len(),
{
    if a.len() > 0 {
        lemma_lex_lt_irreflexive(a.drop_first());
    }
}

/// The order is transitive.
pub proof fn lemma_lex_lt_transitive(a: Seq<u8>, b: Seq<u8>, c: Seq<u8>)
    requires
        lex_lt(a, b),
        lex_lt(b, c),
    ensures
        lex_lt(a, c),
    decreases a.len(),
{
    if a.len() > 0 && b.len() > 0 && c.len() > 0 && a[0] == b[0] && b[0] == c[0] {
        lemma_lex_lt_transitive(a.drop_first(), b.drop_first(), c.drop_first());
    }
}

/// Of two different byte strings, one comes before the other.
pub proof fn lemma_lex_lt_total(a: Seq<u8>, b: Seq<u8>)
    ensures
        a != b ==> lex_lt(a, b) || lex_lt(b, a),
    decreases a.len(),
{
    if a.len() > 0 && b.len() > 0 && a[0] == b[0] {
        lemma_lex_lt_total(a.drop_first(), b.drop_first());
        if a.drop_first() == b.drop_first() {
            assert(a =~= seq![a[0]] + a.drop_first());
            assert(b =~= seq![b[0]] + b.drop_first());
        }
    } else if a.len() == 0 && b.len() == 0 {
        assert(a =~= b);
    }
}

/// The answer to the key `key` after the last accepted key `previous`: refused with
/// `InvalidMapOrder` when it comes before it, with `DuplicateMapKey` when it equals it.
pub open spec fn key_check(previous: Option<Seq<u8>>, key: Seq<u8>) -> Result<(), DecodeError> {
    match previous {
        Some(p) => if lex_lt(key, p) {
            Err(DecodeError::InvalidMapOrder)
        } else if key == p {
            Err(DecodeError::DuplicateMapKey)
        } else {
            Ok(())
        },
        None => Ok(()),
    }
}

/// The last accepted key after the keys `keys` are checked one after the other from `previous`.
pub open spec fn kept_after(previous: Option<Seq<u8>>, keys: Seq<Seq<u8>>) -> Option<Seq<u8>>
    decreases keys.len(),
{
    if keys.len() == 0 {
        previous
    } else {
        let p = kept_after(previous, keys.drop_last());
        if key_check(p, keys.last()) is Ok {
            Some(keys.last())
        } else {
            p
        }
    }
}

/// While every key so far was accepted, the last accepted key is the last of them.
proof fn lemma_kept_prefix(keys: Seq<Seq<u8>>, m: int)
    requires
        0 <= m <= keys.len(),
        forall|j: int| 0 <= j < m ==> #[trigger] key_check(kept_after(None, keys.take(j)), keys[j]) is Ok,
    ensures
        kept_after(None, keys.take(m)) == if m == 0 {
            None::<Seq<u8>>
        } else {
            Some(keys[m - 1])
        },
    decreases m,
{
    if m > 0 {
        lemma_kept_prefix(keys, m - 1);
        assert(keys.take(m).drop_last() =~= keys.take(m - 1));
        assert(key_check(kept_after(None, keys.take(m - 1)), keys[m - 1]) is Ok);
    }
}

/// Keys checked one after the other from a new validator are all accepted exactly when each
/// comes strictly after the one before it, bytewise.
pub proof fn lemma_key_run(keys: Seq<Seq<u8>>)
    ensures
        (forall|j: int| 0 <= j < keys.len() ==> #[trigger] key_check(kept_after(None, keys.take(j)), keys[j]) is Ok)
            <==> (forall|i: int| 0 <= i < keys.len() - 1 ==> #[trigger] lex_lt(keys[i], keys[i + 1])),
{
    if forall|j: int| 0 <= j < keys.len() ==> #[trigger] key_check(kept_after(None, keys.take(j)), keys[j]) is Ok {
        assert forall|i: int| 0 <= i < keys.len() - 1 implies #[trigger] lex_lt(keys[i], keys[i + 1]) by {
            lemma_kept_prefix(keys, i + 1);
            assert(key_check(kept_after(None, keys.take(i + 1)), keys[i + 1]) is Ok);
            lemma_lex_lt_total(keys[i], keys[i + 1]);
        }
    }
    if forall|i: int| 0 <= i < keys.len() - 1 ==> #[trigger] lex_lt(keys[i], keys[i + 1]) {
        lemma_increasing_accepted(keys, keys.len() as int);
    }
}

/// Strictly increasing keys are accepted, each in turn.
proof fn lemma_increasing_accepted(keys: Seq<Seq<u8>>, m: int)
    requires
        0 <= m <= keys.len(),
        forall|i: int| 0 <= i < keys.len() - 1 ==> #[trigger] lex_lt(keys[i], keys[i + 1]),
    ensures
        forall|j: int| 0 <= j < m ==> #[trigger] key_check(kept_after(None, keys.take(j)), keys[j]) is Ok,
    decreases m,
{
    if m > 0 {
        lemma_increasing_accepted(keys, m - 1);
        lemma_kept_prefix(keys, m - 1);
        if m >= 2 {
            let i = m - 2;
            assert(lex_lt(keys[i], keys[i + 1]));
            assert(i + 1 == m - 1);
            lemma_lex_lt_irreflexive(keys[m - 1]);
            if lex_lt(keys[m - 1], keys[m - 2]) {
                lemma_lex_lt_transitive(keys[m - 1], keys[m - 2], keys[m - 1]);
            }
        }
        assert(key_check(kept_after(None, keys.take(m - 1)), keys[m - 1]) is Ok);
    }
}

/// Compare two byte strings: `-1` when `a` comes first, `0` when they are equal, `1` otherwise.
pub(crate) fn compare_bytes(a: &[u8], b: &[u8]) -> (r: i8)
    ensures
        r == -1 <==> lex_lt(a@, b@),
        r == 0 <==> a@ == b@,
        r == 1 <==> lex_lt(b@, a@),
        r == -1 || r == 0 || r == 1,
{
    let mut i: usize = 0;
    proof {
        lemma_lex_lt_total(a@, b@);
        lemma_lex_lt_irreflexive(a@);
        if lex_lt(a@, b@) && lex_lt(b@, a@) {
            lemma_lex_lt_transitive(a@, b@, a@);
        }
        assert(a@.skip(0) =~= a@);
        assert(b@.skip(0) =~= b@);
        assert(a@.take(0) =~= b@.take(0));
    }
    while i < a.len() && i < b.len()
        invariant
            i <= a@.len(),
            i <= b@.len(),
            a@.take(i as int) == b@.take(i as int),
            lex_lt(a@, b@) == lex_lt(a@.skip(i as int), b@.skip(i as int)),
            lex_lt(b@, a@) == lex_lt(b@.skip(i as int), a@.skip(i as int)),
        decreases a@.len() - i,
    {
        if a[i] != b[i] {
            proof {
                assert(a@.skip(i as int)[0] == a@[i as int]);
                assert(b@.skip(i as int)[0] == b@[i as int]);
                if a@ == b@ {
                    assert(a@[i as int] == b@[i as int]);
                }
            }
            if a[i] < b[i] {
                return -1;
            } else {
                return 1;
            }
        }
        proof {
            assert(a@.skip(i as int).drop_first() =~= a@.skip(i + 1));
            assert(b@.skip(i as int).drop_first() =~= b@.skip(i + 1));
            assert(a@.take(i + 1) =~= a@.take(i as int).push(a@[i as int]));
            assert(b@.take(i + 1) =~= b@.take(i as int).push(b@[i as int]));
        }
        i = i + 1;
    }
    proof {
        if i == a@.len() && i == b@.len() {
            assert(a@ =~= a@.take(i as int));
            assert(b@ =~= b@.take(i as int));
        } else if i == a@.len() {
            assert(a@.skip(i as int).len() == 0);
            assert(a@ != b@) by {
                if a@ == b@ {
                    assert(a@.len() == b@.len());
                }
            }
        } else {
            assert(b@.skip(i as int).len() == 0);
            assert(a@ != b@) by {
                if a@ == b@ {
                    assert(a@.len() == b@.len());
                }
            }
        }
    }
    if a.len() == b.len() {
        0
    } else if a.len() < b.len() {
        -1
    } else {
        1
    }
}

/// A struct that helps validating deterministic map/set decoding.
/// It re-encodes each key and ensures keys appear in strictly increasing
/// bytewise order (no duplicates, no out-of-order).
pub struct DeterministicValidator {
    previous_key: Option<Vec<u8>>,
}

impl DeterministicValidator {
    /// The bytes of the last key accepted, if any.
    pub closed spec fn previous(&self) -> Option<Seq<u8>> {
        match self.previous_key {
            Some(k) => Some(k@),
            None => None,
        }
    }

    /// Create a new deterministic validator.
    pub fn new() -> (v: Self)
        ensures
            v.previous() == None::<Seq<u8>>,
    {
        DeterministicValidator { previous_key: None }
    }

    /// Validate that the given key bytes are strictly greater than the previous key.
    /// Call this with the already-encoded bytes of each key, in order.
    ///
    /// A key that comes before the previous one is refused with `InvalidMapOrder`, one equal to
    /// it with `DuplicateMapKey`; a refused key is not kept.
    pub fn validate_key_bytes(&mut self, key_bytes: Vec<u8>) -> (r: Result<(), DecodeError>)
        ensures
            r == key_check(old(self).previous(), key_bytes@),
            r is Ok ==> final(self).previous() == Some(key_bytes@),
            r is Err ==> final(self).previous() == old(self).previous(),
    {
        match &self.previous_key {
            Some(prev) => {
                let order = compare_bytes(key_bytes.as_slice(), prev.as_slice());
                if order == -1 {
                    return Err(DecodeError::InvalidMapOrder);
                } else if order == 0 {
                    return Err(DecodeError::DuplicateMapKey);
                }
            },
            None => {},
        }
        self.previous_key = Some(key_bytes);
        Ok(())
    }

    /// Re-encode a key value into bytes using the given config, then validate ordering.
    pub fn validate_key<C: Config, K: Encode>(&mut self, config: &C, key: &K) -> (r: Result<(), DecodeError>)
        ensures
            match key.encoding(config.settings()) {
                Ok(b) => match old(self).previous() {
                    Some(p) => if lex_lt(b, p) {
                        r == Err::<(), DecodeError>(DecodeError::InvalidMapOrder)
                    } else if b == p {
                        r == Err::<(), DecodeError>(DecodeError::DuplicateMapKey)
                    } else {
                        r is Ok && final(self).previous() == Some(b)
                    },
                    None => r is Ok && final(self).previous() == Some(b),
                },
                Err(_) => r == Err::<(), DecodeError>(DecodeError::KeyReencodingFailed),
            },
    {
        let key_bytes: Vec<u8> = Vec::new();
        let mut key_encoder = EncoderImpl::<Vec<u8>, C>::new(key_bytes, config.duplicate());
        let ghost e0 = key_encoder;
        proof {
            e0.lemma_inner();
        }
        let r = key.encode(&mut key_encoder);
        proof {
            key_encoder.lemma_inner();
        }
        if r.is_err() {
            return Err(DecodeError::KeyReencodingFailed);
        }
        let key_bytes = key_encoder.into_writer();
        proof {
            if let Ok(b) = key.encoding(config.settings()) {
                assert(key_bytes@ =~= b);
            }
        }
        self.validate_key_bytes(key_bytes)
    }
}

impl Default for DeterministicValidator {
    fn default() -> (v: Self)
        ensures
            v.previous() == None::<Seq<u8>>,
    {
        DeterministicValidator::new()
    }
}

} // verus!
