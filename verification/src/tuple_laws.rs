//! The round-trip law for tuples: a tuple decodes from its own bytes whenever each of its values
//! does.
use crate::config::Configuration;
use crate::de::{Decode, Model};
use crate::enc::Encode;
use crate::error::{DecodeError, EncodeError};
use crate::round_trip::round_trips;
use vstd::prelude::*;

verus! {

/// Skipping past the front `a` of what is left after `m` bytes leaves what follows it.
proof fn lemma_skip_past(s: Seq<u8>, m: int, a: Seq<u8>, t: Seq<u8>)
    requires
        0 <= m <= s.len(),
        s.skip(m) == a + t,
    ensures
        s.skip(m + a.len()) == t,
        m + a.len() <= s.len(),
{
    assert(s.skip(m + a.len()) =~= (a + t).skip(a.len() as int));
    assert((a + t).skip(a.len() as int) =~= t);
}

/// A tuple of one value decodes from its own bytes, followed by anything, whenever that value does.
pub proof fn lemma_tuple1_round_trip<T0: Encode + Decode<()>>(v: (T0,), c: Configuration, k: nat, rest: Seq<u8>)
    requires
        round_trips(v.0, c, k),
    ensures
        v.encoding(c) matches Ok(b) && <(T0,) as Decode<()>>::decoding(c, k, b + rest) == Ok::<
            ((T0::V,), nat, nat),
            DecodeError,
        >((v.model(), b.len(), k)),
{
    let b0 = v.0.encoding(c)->Ok_0;
    let r1 = rest;
    let r0 = b0 + r1;
    let s = b0 + rest;
    assert(v.encoding(c) == Ok::<Seq<u8>, EncodeError>(b0));
    assert(s.skip(0) == r0) by {
        assert(s =~= r0);
        assert(s.skip(0) =~= s);
    }
    assert(T0::decoding(c, k, s) == Ok::<(T0::V, nat, nat), DecodeError>((v.0.model(), b0.len(), k))) by {
        assert(s =~= r0);
        assert(T0::decoding(c, k, b0 + r1) == Ok::<(T0::V, nat, nat), DecodeError>((v.0.model(), b0.len(), k)));
    }
    assert((b0).len() == b0.len());
}

/// A tuple of three values decodes from its own bytes, followed by anything, whenever each of them does.
pub proof fn lemma_tuple3_round_trip<T0: Encode + Decode<()>, T1: Encode + Decode<()>, T2: Encode + Decode<()>>(v: (T0, T1, T2), c: Configuration, k: nat, rest: Seq<u8>)
    requires
        round_trips(v.0, c, k),
        round_trips(v.1, c, k),
        round_trips(v.2, c, k),
    ensures
        v.encoding(c) matches Ok(b) && <(T0, T1, T2) as Decode<()>>::decoding(c, k, b + rest) == Ok::<
            ((T0::V, T1::V, T2::V), nat, nat),
            DecodeError,
        >((v.model(), b.len(), k)),
{
    let b0 = v.0.encoding(c)->Ok_0;
    let b1 = v.1.encoding(c)->Ok_0;
    let b2 = v.2.encoding(c)->Ok_0;
    let r3 = rest;
    let r2 = b2 + r3;
    let r1 = b1 + r2;
    let r0 = b0 + r1;
    let s = b0 + b1 + b2 + rest;
    assert(v.encoding(c) == Ok::<Seq<u8>, EncodeError>(b0 + b1 + b2));
    assert(s.skip(0) == r0) by {
        assert(s =~= r0);
        assert(s.skip(0) =~= s);
    }
    lemma_skip_past(s, (0) as int, b0, r1);
    lemma_skip_past(s, (b0.len()) as int, b1, r2);
    assert(T0::decoding(c, k, s) == Ok::<(T0::V, nat, nat), DecodeError>((v.0.model(), b0.len(), k))) by {
        assert(s =~= r0);
        assert(T0::decoding(c, k, b0 + r1) == Ok::<(T0::V, nat, nat), DecodeError>((v.0.model(), b0.len(), k)));
    }
    assert(T1::decoding(c, k, s.skip((b0.len()) as int)) == Ok::<(T1::V, nat, nat), DecodeError>((v.1.model(), b1.len(), k))) by {
        assert(T1::decoding(c, k, b1 + r2) == Ok::<(T1::V, nat, nat), DecodeError>((v.1.model(), b1.len(), k)));
    }
    assert(T2::decoding(c, k, s.skip((b0.len() + b1.len()) as int)) == Ok::<(T2::V, nat, nat), DecodeError>((v.2.model(), b2.len(), k))) by {
        assert(T2::decoding(c, k, b2 + r3) == Ok::<(T2::V, nat, nat), DecodeError>((v.2.model(), b2.len(), k)));
    }
    assert((b0 + b1 + b2).len() == b0.len() + b1.len() + b2.len());
}

/// A tuple of four values decodes from its own bytes, followed by anything, whenever each of them does.
pub proof fn lemma_tuple4_round_trip<T0: Encode + Decode<()>, T1: Encode + Decode<()>, T2: Encode + Decode<()>, T3: Encode + Decode<()>>(v: (T0, T1, T2, T3), c: Configuration, k: nat, rest: Seq<u8>)
    requires
        round_trips(v.0, c, k),
        round_trips(v.1, c, k),
        round_trips(v.2, c, k),
        round_trips(v.3, c, k),
    ensures
        v.encoding(c) matches Ok(b) && <(T0, T1, T2, T3) as Decode<()>>::decoding(c, k, b + rest) == Ok::<
            ((T0::V, T1::V, T2::V, T3::V), nat, nat),
            DecodeError,
        >((v.model(), b.len(), k)),
{
    let b0 = v.0.encoding(c)->Ok_0;
    let b1 = v.1.encoding(c)->Ok_0;
    let b2 = v.2.encoding(c)->Ok_0;
    let b3 = v.3.encoding(c)->Ok_0;
    let r4 = rest;
    let r3 = b3 + r4;
    let r2 = b2 + r3;
    let r1 = b1 + r2;
    let r0 = b0 + r1;
    let s = b0 + b1 + b2 + b3 + rest;
    assert(v.encoding(c) == Ok::<Seq<u8>, EncodeError>(b0 + b1 + b2 + b3));
    assert(s.skip(0) == r0) by {
        assert(s =~= r0);
        assert(s.skip(0) =~= s);
    }
    lemma_skip_past(s, (0) as int, b0, r1);
    lemma_skip_past(s, (b0.len()) as int, b1, r2);
    lemma_skip_past(s, (b0.len() + b1.len()) as int, b2, r3);
    assert(T0::decoding(c, k, s) == Ok::<(T0::V, nat, nat), DecodeError>((v.0.model(), b0.len(), k))) by {
        assert(s =~= r0);
        assert(T0::decoding(c, k, b0 + r1) == Ok::<(T0::V, nat, nat), DecodeError>((v.0.model(), b0.len(), k)));
    }
    assert(T1::decoding(c, k, s.skip((b0.len()) as int)) == Ok::<(T1::V, nat, nat), DecodeError>((v.1.model(), b1.len(), k))) by {
        assert(T1::decoding(c, k, b1 + r2) == Ok::<(T1::V, nat, nat), DecodeError>((v.1.model(), b1.len(), k)));
    }
    assert(T2::decoding(c, k, s.skip((b0.len() + b1.len()) as int)) == Ok::<(T2::V, nat, nat), DecodeError>((v.2.model(), b2.len(), k))) by {
        assert(T2::decoding(c, k, b2 + r3) == Ok::<(T2::V, nat, nat), DecodeError>((v.2.model(), b2.len(), k)));
    }
    assert(T3::decoding(c, k, s.skip((b0.len() + b1.len() + b2.len()) as int)) == Ok::<(T3::V, nat, nat), DecodeError>((v.3.model(), b3.len(), k))) by {
        assert(T3::decoding(c, k, b3 + r4) == Ok::<(T3::V, nat, nat), DecodeError>((v.3.model(), b3.len(), k)));
    }
    assert((b0 + b1 + b2 + b3).len() == b0.len() + b1.len() + b2.len() + b3.len());
}

/// A tuple of five values decodes from its own bytes, followed by anything, whenever each of them does.
pub proof fn lemma_tuple5_round_trip<T0: Encode + Decode<()>, T1: Encode + Decode<()>, T2: Encode + Decode<()>, T3: Encode + Decode<()>, T4: Encode + Decode<()>>(v: (T0, T1, T2, T3, T4), c: Configuration, k: nat, rest: Seq<u8>)
    requires
        round_trips(v.0, c, k),
        round_trips(v.1, c, k),
        round_trips(v.2, c, k),
        round_trips(v.3, c, k),
        round_trips(v.4, c, k),
    ensures
        v.encoding(c) matches Ok(b) && <(T0, T1, T2, T3, T4) as Decode<()>>::decoding(c, k, b + rest) == Ok::<
            ((T0::V, T1::V, T2::V, T3::V, T4::V), nat, nat),
            DecodeError,
        >((v.model(), b.len(), k)),
{
    let b0 = v.0.encoding(c)->Ok_0;
    let b1 = v.1.encoding(c)->Ok_0;
    let b2 = v.2.encoding(c)->Ok_0;
    let b3 = v.3.encoding(c)->Ok_0;
    let b4 = v.4.encoding(c)->Ok_0;
    let r5 = rest;
    let r4 = b4 + r5;
    let r3 = b3 + r4;
    let r2 = b2 + r3;
    let r1 = b1 + r2;
    let r0 = b0 + r1;
    let s = b0 + b1 + b2 + b3 + b4 + rest;
    assert(v.encoding(c) == Ok::<Seq<u8>, EncodeError>(b0 + b1 + b2 + b3 + b4));
    assert(s.skip(0) == r0) by {
        assert(s =~= r0);
        assert(s.skip(0) =~= s);
    }
    lemma_skip_past(s, (0) as int, b0, r1);
    lemma_skip_past(s, (b0.len()) as int, b1, r2);
    lemma_skip_past(s, (b0.len() + b1.len()) as int, b2, r3);
    lemma_skip_past(s, (b0.len() + b1.len() + b2.len()) as int, b3, r4);
    assert(T0::decoding(c, k, s) == Ok::<(T0::V, nat, nat), DecodeError>((v.0.model(), b0.len(), k))) by {
        assert(s =~= r0);
        assert(T0::decoding(c, k, b0 + r1) == Ok::<(T0::V, nat, nat), DecodeError>((v.0.model(), b0.len(), k)));
    }
    assert(T1::decoding(c, k, s.skip((b0.len()) as int)) == Ok::<(T1::V, nat, nat), DecodeError>((v.1.model(), b1.len(), k))) by {
        assert(T1::decoding(c, k, b1 + r2) == Ok::<(T1::V, nat, nat), DecodeError>((v.1.model(), b1.len(), k)));
    }
    assert(T2::decoding(c, k, s.skip((b0.len() + b1.len()) as int)) == Ok::<(T2::V, nat, nat), DecodeError>((v.2.model(), b2.len(), k))) by {
        assert(T2::decoding(c, k, b2 + r3) == Ok::<(T2::V, nat, nat), DecodeError>((v.2.model(), b2.len(), k)));
    }
    assert(T3::decoding(c, k, s.skip((b0.len() + b1.len() + b2.len()) as int)) == Ok::<(T3::V, nat, nat), DecodeError>((v.3.model(), b3.len(), k))) by {
        assert(T3::decoding(c, k, b3 + r4) == Ok::<(T3::V, nat, nat), DecodeError>((v.3.model(), b3.len(), k)));
    }
    assert(T4::decoding(c, k, s.skip((b0.len() + b1.len() + b2.len() + b3.len()) as int)) == Ok::<(T4::V, nat, nat), DecodeError>((v.4.model(), b4.len(), k))) by {
        assert(T4::decoding(c, k, b4 + r5) == Ok::<(T4::V, nat, nat), DecodeError>((v.4.model(), b4.len(), k)));
    }
    assert((b0 + b1 + b2 + b3 + b4).len() == b0.len() + b1.len() + b2.len() + b3.len() + b4.len());
}

/// A tuple of six values decodes from its own bytes, followed by anything, whenever each of them does.
#[verifier::rlimit(40)]
#[verifier::spinoff_prover]
pub proof fn lemma_tuple6_round_trip<T0: Encode + Decode<()>, T1: Encode + Decode<()>, T2: Encode + Decode<()>, T3: Encode + Decode<()>, T4: Encode + Decode<()>, T5: Encode + Decode<()>>(v: (T0, T1, T2, T3, T4, T5), c: Configuration, k: nat, rest: Seq<u8>)
    requires
        round_trips(v.0, c, k),
        round_trips(v.1, c, k),
        round_trips(v.2, c, k),
        round_trips(v.3, c, k),
        round_trips(v.4, c, k),
        round_trips(v.5, c, k),
    ensures
        v.encoding(c) matches Ok(b) && <(T0, T1, T2, T3, T4, T5) as Decode<()>>::decoding(c, k, b + rest) == Ok::<
            ((T0::V, T1::V, T2::V, T3::V, T4::V, T5::V), nat, nat),
            DecodeError,
        >((v.model(), b.len(), k)),
{
    let b0 = v.0.encoding(c)->Ok_0;
    let b1 = v.1.encoding(c)->Ok_0;
    let b2 = v.2.encoding(c)->Ok_0;
    let b3 = v.3.encoding(c)->Ok_0;
    let b4 = v.4.encoding(c)->Ok_0;
    let b5 = v.5.encoding(c)->Ok_0;
    let r6 = rest;
    let r5 = b5 + r6;
    let r4 = b4 + r5;
    let r3 = b3 + r4;
    let r2 = b2 + r3;
    let r1 = b1 + r2;
    let r0 = b0 + r1;
    let s = b0 + b1 + b2 + b3 + b4 + b5 + rest;
    assert(v.encoding(c) == Ok::<Seq<u8>, EncodeError>(b0 + b1 + b2 + b3 + b4 + b5));
    assert(s.skip(0) == r0) by {
        assert(s =~= r0);
        assert(s.skip(0) =~= s);
    }
    lemma_skip_past(s, (0) as int, b0, r1);
    lemma_skip_past(s, (b0.len()) as int, b1, r2);
    lemma_skip_past(s, (b0.len() + b1.len()) as int, b2, r3);
    lemma_skip_past(s, (b0.len() + b1.len() + b2.len()) as int, b3, r4);
    lemma_skip_past(s, (b0.len() + b1.len() + b2.len() + b3.len()) as int, b4, r5);
    assert(T0::decoding(c, k, s) == Ok::<(T0::V, nat, nat), DecodeError>((v.0.model(), b0.len(), k))) by {
        assert(s =~= r0);
        assert(T0::decoding(c, k, b0 + r1) == Ok::<(T0::V, nat, nat), DecodeError>((v.0.model(), b0.len(), k)));
    }
    assert(T1::decoding(c, k, s.skip((b0.len()) as int)) == Ok::<(T1::V, nat, nat), DecodeError>((v.1.model(), b1.len(), k))) by {
        assert(T1::decoding(c, k, b1 + r2) == Ok::<(T1::V, nat, nat), DecodeError>((v.1.model(), b1.len(), k)));
    }
    assert(T2::decoding(c, k, s.skip((b0.len() + b1.len()) as int)) == Ok::<(T2::V, nat, nat), DecodeError>((v.2.model(), b2.len(), k))) by {
        assert(T2::decoding(c, k, b2 + r3) == Ok::<(T2::V, nat, nat), DecodeError>((v.2.model(), b2.len(), k)));
    }
    assert(T3::decoding(c, k, s.skip((b0.len() + b1.len() + b2.len()) as int)) == Ok::<(T3::V, nat, nat), DecodeError>((v.3.model(), b3.len(), k))) by {
        assert(T3::decoding(c, k, b3 + r4) == Ok::<(T3::V, nat, nat), DecodeError>((v.3.model(), b3.len(), k)));
    }
    assert(T4::decoding(c, k, s.skip((b0.len() + b1.len() + b2.len() + b3.len()) as int)) == Ok::<(T4::V, nat, nat), DecodeError>((v.4.model(), b4.len(), k))) by {
        assert(T4::decoding(c, k, b4 + r5) == Ok::<(T4::V, nat, nat), DecodeError>((v.4.model(), b4.len(), k)));
    }
    assert(T5::decoding(c, k, s.skip((b0.len() + b1.len() + b2.len() + b3.len() + b4.len()) as int)) == Ok::<(T5::V, nat, nat), DecodeError>((v.5.model(), b5.len(), k))) by {
        assert(T5::decoding(c, k, b5 + r6) == Ok::<(T5::V, nat, nat), DecodeError>((v.5.model(), b5.len(), k)));
    }
    assert((b0 + b1 + b2 + b3 + b4 + b5).len() == b0.len() + b1.len() + b2.len() + b3.len() + b4.len() + b5.len());
}

/// A tuple of seven values decodes from its own bytes, followed by anything, whenever each of them does.
#[verifier::rlimit(40)]
#[verifier::spinoff_prover]
pub proof fn lemma_tuple7_round_trip<T0: Encode + Decode<()>, T1: Encode + Decode<()>, T2: Encode + Decode<()>, T3: Encode + Decode<()>, T4: Encode + Decode<()>, T5: Encode + Decode<()>, T6: Encode + Decode<()>>(v: (T0, T1, T2, T3, T4, T5, T6), c: Configuration, k: nat, rest: Seq<u8>)
    requires
        round_trips(v.0, c, k),
        round_trips(v.1, c, k),
        round_trips(v.2, c, k),
        round_trips(v.3, c, k),
        round_trips(v.4, c, k),
        round_trips(v.5, c, k),
        round_trips(v.6, c, k),
    ensures
        v.encoding(c) matches Ok(b) && <(T0, T1, T2, T3, T4, T5, T6) as Decode<()>>::decoding(c, k, b + rest) == Ok::<
            ((T0::V, T1::V, T2::V, T3::V, T4::V, T5::V, T6::V), nat, nat),
            DecodeError,
        >((v.model(), b.len(), k)),
{
    let b0 = v.0.encoding(c)->Ok_0;
    let b1 = v.1.encoding(c)->Ok_0;
    let b2 = v.2.encoding(c)->Ok_0;
    let b3 = v.3.encoding(c)->Ok_0;
    let b4 = v.4.encoding(c)->Ok_0;
    let b5 = v.5.encoding(c)->Ok_0;
    let b6 = v.6.encoding(c)->Ok_0;
    let r7 = rest;
    let r6 = b6 + r7;
    let r5 = b5 + r6;
    let r4 = b4 + r5;
    let r3 = b3 + r4;
    let r2 = b2 + r3;
    let r1 = b1 + r2;
    let r0 = b0 + r1;
    let s = b0 + b1 + b2 + b3 + b4 + b5 + b6 + rest;
    assert(v.encoding(c) == Ok::<Seq<u8>, EncodeError>(b0 + b1 + b2 + b3 + b4 + b5 + b6));
    assert(s.skip(0) == r0) by {
        assert(s =~= r0);
        assert(s.skip(0) =~= s);
    }
    lemma_skip_past(s, (0) as int, b0, r1);
    lemma_skip_past(s, (b0.len()) as int, b1, r2);
    lemma_skip_past(s, (b0.len() + b1.len()) as int, b2, r3);
    lemma_skip_past(s, (b0.len() + b1.len() + b2.len()) as int, b3, r4);
    lemma_skip_past(s, (b0.len() + b1.len() + b2.len() + b3.len()) as int, b4, r5);
    lemma_skip_past(s, (b0.len() + b1.len() + b2.len() + b3.len() + b4.len()) as int, b5, r6);
    assert(T0::decoding(c, k, s) == Ok::<(T0::V, nat, nat), DecodeError>((v.0.model(), b0.len(), k))) by {
        assert(s =~= r0);
        assert(T0::decoding(c, k, b0 + r1) == Ok::<(T0::V, nat, nat), DecodeError>((v.0.model(), b0.len(), k)));
    }
    assert(T1::decoding(c, k, s.skip((b0.len()) as int)) == Ok::<(T1::V, nat, nat), DecodeError>((v.1.model(), b1.len(), k))) by {
        assert(T1::decoding(c, k, b1 + r2) == Ok::<(T1::V, nat, nat), DecodeError>((v.1.model(), b1.len(), k)));
    }
    assert(T2::decoding(c, k, s.skip((b0.len() + b1.len()) as int)) == Ok::<(T2::V, nat, nat), DecodeError>((v.2.model(), b2.len(), k))) by {
        assert(T2::decoding(c, k, b2 + r3) == Ok::<(T2::V, nat, nat), DecodeError>((v.2.model(), b2.len(), k)));
    }
    assert(T3::decoding(c, k, s.skip((b0.len() + b1.len() + b2.len()) as int)) == Ok::<(T3::V, nat, nat), DecodeError>((v.3.model(), b3.len(), k))) by {
        assert(T3::decoding(c, k, b3 + r4) == Ok::<(T3::V, nat, nat), DecodeError>((v.3.model(), b3.len(), k)));
    }
    assert(T4::decoding(c, k, s.skip((b0.len() + b1.len() + b2.len() + b3.len()) as int)) == Ok::<(T4::V, nat, nat), DecodeError>((v.4.model(), b4.len(), k))) by {
        assert(T4::decoding(c, k, b4 + r5) == Ok::<(T4::V, nat, nat), DecodeError>((v.4.model(), b4.len(), k)));
    }
    assert(T5::decoding(c, k, s.skip((b0.len() + b1.len() + b2.len() + b3.len() + b4.len()) as int)) == Ok::<(T5::V, nat, nat), DecodeError>((v.5.model(), b5.len(), k))) by {
        assert(T5::decoding(c, k, b5 + r6) == Ok::<(T5::V, nat, nat), DecodeError>((v.5.model(), b5.len(), k)));
    }
    assert(T6::decoding(c, k, s.skip((b0.len() + b1.len() + b2.len() + b3.len() + b4.len() + b5.len()) as int)) == Ok::<(T6::V, nat, nat), DecodeError>((v.6.model(), b6.len(), k))) by {
        assert(T6::decoding(c, k, b6 + r7) == Ok::<(T6::V, nat, nat), DecodeError>((v.6.model(), b6.len(), k)));
    }
    assert((b0 + b1 + b2 + b3 + b4 + b5 + b6).len() == b0.len() + b1.len() + b2.len() + b3.len() + b4.len() + b5.len() + b6.len());
}

/// A tuple of eight values decodes from its own bytes, followed by anything, whenever each of them does.
#[verifier::rlimit(40)]
#[verifier::spinoff_prover]
pub proof fn lemma_tuple8_round_trip<T0: Encode + Decode<()>, T1: Encode + Decode<()>, T2: Encode + Decode<()>, T3: Encode + Decode<()>, T4: Encode + Decode<()>, T5: Encode + Decode<()>, T6: Encode + Decode<()>, T7: Encode + Decode<()>>(v: (T0, T1, T2, T3, T4, T5, T6, T7), c: Configuration, k: nat, rest: Seq<u8>)
    requires
        round_trips(v.0, c, k),
        round_trips(v.1, c, k),
        round_trips(v.2, c, k),
        round_trips(v.3, c, k),
        round_trips(v.4, c, k),
        round_trips(v.5, c, k),
        round_trips(v.6, c, k),
        round_trips(v.7, c, k),
    ensures
        v.encoding(c) matches Ok(b) && <(T0, T1, T2, T3, T4, T5, T6, T7) as Decode<()>>::decoding(c, k, b + rest) == Ok::<
            ((T0::V, T1::V, T2::V, T3::V, T4::V, T5::V, T6::V, T7::V), nat, nat),
            DecodeError,
        >((v.model(), b.len(), k)),
{
    let b0 = v.0.encoding(c)->Ok_0;
    let b1 = v.1.encoding(c)->Ok_0;
    let b2 = v.2.encoding(c)->Ok_0;
    let b3 = v.3.encoding(c)->Ok_0;
    let b4 = v.4.encoding(c)->Ok_0;
    let b5 = v.5.encoding(c)->Ok_0;
    let b6 = v.6.encoding(c)->Ok_0;
    let b7 = v.7.encoding(c)->Ok_0;
    let r8 = rest;
    let r7 = b7 + r8;
    let r6 = b6 + r7;
    let r5 = b5 + r6;
    let r4 = b4 + r5;
    let r3 = b3 + r4;
    let r2 = b2 + r3;
    let r1 = b1 + r2;
    let r0 = b0 + r1;
    let s = b0 + b1 + b2 + b3 + b4 + b5 + b6 + b7 + rest;
    assert(v.encoding(c) == Ok::<Seq<u8>, EncodeError>(b0 + b1 + b2 + b3 + b4 + b5 + b6 + b7));
    assert(s.skip(0) == r0) by {
        assert(s =~= r0);
        assert(s.skip(0) =~= s);
    }
    lemma_skip_past(s, (0) as int, b0, r1);
    lemma_skip_past(s, (b0.len()) as int, b1, r2);
    lemma_skip_past(s, (b0.len() + b1.len()) as int, b2, r3);
    lemma_skip_past(s, (b0.len() + b1.len() + b2.len()) as int, b3, r4);
    lemma_skip_past(s, (b0.len() + b1.len() + b2.len() + b3.len()) as int, b4, r5);
    lemma_skip_past(s, (b0.len() + b1.len() + b2.len() + b3.len() + b4.len()) as int, b5, r6);
    lemma_skip_past(s, (b0.len() + b1.len() + b2.len() + b3.len() + b4.len() + b5.len()) as int, b6, r7);
    assert(T0::decoding(c, k, s) == Ok::<(T0::V, nat, nat), DecodeError>((v.0.model(), b0.len(), k))) by {
        assert(s =~= r0);
        assert(T0::decoding(c, k, b0 + r1) == Ok::<(T0::V, nat, nat), DecodeError>((v.0.model(), b0.len(), k)));
    }
    assert(T1::decoding(c, k, s.skip((b0.len()) as int)) == Ok::<(T1::V, nat, nat), DecodeError>((v.1.model(), b1.len(), k))) by {
        assert(T1::decoding(c, k, b1 + r2) == Ok::<(T1::V, nat, nat), DecodeError>((v.1.model(), b1.len(), k)));
    }
    assert(T2::decoding(c, k, s.skip((b0.len() + b1.len()) as int)) == Ok::<(T2::V, nat, nat), DecodeError>((v.2.model(), b2.len(), k))) by {
        assert(T2::decoding(c, k, b2 + r3) == Ok::<(T2::V, nat, nat), DecodeError>((v.2.model(), b2.len(), k)));
    }
    assert(T3::decoding(c, k, s.skip((b0.len() + b1.len() + b2.len()) as int)) == Ok::<(T3::V, nat, nat), DecodeError>((v.3.model(), b3.len(), k))) by {
        assert(T3::decoding(c, k, b3 + r4) == Ok::<(T3::V, nat, nat), DecodeError>((v.3.model(), b3.len(), k)));
    }
    assert(T4::decoding(c, k, s.skip((b0.len() + b1.len() + b2.len() + b3.len()) as int)) == Ok::<(T4::V, nat, nat), DecodeError>((v.4.model(), b4.len(), k))) by {
        assert(T4::decoding(c, k, b4 + r5) == Ok::<(T4::V, nat, nat), DecodeError>((v.4.model(), b4.len(), k)));
    }
    assert(T5::decoding(c, k, s.skip((b0.len() + b1.len() + b2.len() + b3.len() + b4.len()) as int)) == Ok::<(T5::V, nat, nat), DecodeError>((v.5.model(), b5.len(), k))) by {
        assert(T5::decoding(c, k, b5 + r6) == Ok::<(T5::V, nat, nat), DecodeError>((v.5.model(), b5.len(), k)));
    }
    assert(T6::decoding(c, k, s.skip((b0.len() + b1.len() + b2.len() + b3.len() + b4.len() + b5.len()) as int)) == Ok::<(T6::V, nat, nat), DecodeError>((v.6.model(), b6.len(), k))) by {
        assert(T6::decoding(c, k, b6 + r7) == Ok::<(T6::V, nat, nat), DecodeError>((v.6.model(), b6.len(), k)));
    }
    assert(T7::decoding(c, k, s.skip((b0.len() + b1.len() + b2.len() + b3.len() + b4.len() + b5.len() + b6.len()) as int)) == Ok::<(T7::V, nat, nat), DecodeError>((v.7.model(), b7.len(), k))) by {
        assert(T7::decoding(c, k, b7 + r8) == Ok::<(T7::V, nat, nat), DecodeError>((v.7.model(), b7.len(), k)));
    }
    assert((b0 + b1 + b2 + b3 + b4 + b5 + b6 + b7).len() == b0.len() + b1.len() + b2.len() + b3.len() + b4.len() + b5.len() + b6.len() + b7.len());
}

/// A tuple of nine values decodes from its own bytes, followed by anything, whenever each of them does.
#[verifier::rlimit(40)]
#[verifier::spinoff_prover]
pub proof fn lemma_tuple9_round_trip<T0: Encode + Decode<()>, T1: Encode + Decode<()>, T2: Encode + Decode<()>, T3: Encode + Decode<()>, T4: Encode + Decode<()>, T5: Encode + Decode<()>, T6: Encode + Decode<()>, T7: Encode + Decode<()>, T8: Encode + Decode<()>>(v: (T0, T1, T2, T3, T4, T5, T6, T7, T8), c: Configuration, k: nat, rest: Seq<u8>)
    requires
        round_trips(v.0, c, k),
        round_trips(v.1, c, k),
        round_trips(v.2, c, k),
        round_trips(v.3, c, k),
        round_trips(v.4, c, k),
        round_trips(v.5, c, k),
        round_trips(v.6, c, k),
        round_trips(v.7, c, k),
        round_trips(v.8, c, k),
    ensures
        v.encoding(c) matches Ok(b) && <(T0, T1, T2, T3, T4, T5, T6, T7, T8) as Decode<()>>::decoding(c, k, b + rest) == Ok::<
            ((T0::V, T1::V, T2::V, T3::V, T4::V, T5::V, T6::V, T7::V, T8::V), nat, nat),
            DecodeError,
        >((v.model(), b.len(), k)),
{
    let b0 = v.0.encoding(c)->Ok_0;
    let b1 = v.1.encoding(c)->Ok_0;
    let b2 = v.2.encoding(c)->Ok_0;
    let b3 = v.3.encoding(c)->Ok_0;
    let b4 = v.4.encoding(c)->Ok_0;
    let b5 = v.5.encoding(c)->Ok_0;
    let b6 = v.6.encoding(c)->Ok_0;
    let b7 = v.7.encoding(c)->Ok_0;
    let b8 = v.8.encoding(c)->Ok_0;
    let r9 = rest;
    let r8 = b8 + r9;
    let r7 = b7 + r8;
    let r6 = b6 + r7;
    let r5 = b5 + r6;
    let r4 = b4 + r5;
    let r3 = b3 + r4;
    let r2 = b2 + r3;
    let r1 = b1 + r2;
    let r0 = b0 + r1;
    let s = b0 + b1 + b2 + b3 + b4 + b5 + b6 + b7 + b8 + rest;
    assert(v.encoding(c) == Ok::<Seq<u8>, EncodeError>(b0 + b1 + b2 + b3 + b4 + b5 + b6 + b7 + b8));
    assert(s.skip(0) == r0) by {
        assert(s =~= r0);
        assert(s.skip(0) =~= s);
    }
    lemma_skip_past(s, (0) as int, b0, r1);
    lemma_skip_past(s, (b0.len()) as int, b1, r2);
    lemma_skip_past(s, (b0.len() + b1.len()) as int, b2, r3);
    lemma_skip_past(s, (b0.len() + b1.len() + b2.len()) as int, b3, r4);
    lemma_skip_past(s, (b0.len() + b1.len() + b2.len() + b3.len()) as int, b4, r5);
    lemma_skip_past(s, (b0.len() + b1.len() + b2.len() + b3.len() + b4.len()) as int, b5, r6);
    lemma_skip_past(s, (b0.len() + b1.len() + b2.len() + b3.len() + b4.len() + b5.len()) as int, b6, r7);
    lemma_skip_past(s, (b0.len() + b1.len() + b2.len() + b3.len() + b4.len() + b5.len() + b6.len()) as int, b7, r8);
    assert(T0::decoding(c, k, s) == Ok::<(T0::V, nat, nat), DecodeError>((v.0.model(), b0.len(), k))) by {
        assert(s =~= r0);
        assert(T0::decoding(c, k, b0 + r1) == Ok::<(T0::V, nat, nat), DecodeError>((v.0.model(), b0.len(), k)));
    }
    assert(T1::decoding(c, k, s.skip((b0.len()) as int)) == Ok::<(T1::V, nat, nat), DecodeError>((v.1.model(), b1.len(), k))) by {
        assert(T1::decoding(c, k, b1 + r2) == Ok::<(T1::V, nat, nat), DecodeError>((v.1.model(), b1.len(), k)));
    }
    assert(T2::decoding(c, k, s.skip((b0.len() + b1.len()) as int)) == Ok::<(T2::V, nat, nat), DecodeError>((v.2.model(), b2.len(), k))) by {
        assert(T2::decoding(c, k, b2 + r3) == Ok::<(T2::V, nat, nat), DecodeError>((v.2.model(), b2.len(), k)));
    }
    assert(T3::decoding(c, k, s.skip((b0.len() + b1.len() + b2.len()) as int)) == Ok::<(T3::V, nat, nat), DecodeError>((v.3.model(), b3.len(), k))) by {
        assert(T3::decoding(c, k, b3 + r4) == Ok::<(T3::V, nat, nat), DecodeError>((v.3.model(), b3.len(), k)));
    }
    assert(T4::decoding(c, k, s.skip((b0.len() + b1.len() + b2.len() + b3.len()) as int)) == Ok::<(T4::V, nat, nat), DecodeError>((v.4.model(), b4.len(), k))) by {
        assert(T4::decoding(c, k, b4 + r5) == Ok::<(T4::V, nat, nat), DecodeError>((v.4.model(), b4.len(), k)));
    }
    assert(T5::decoding(c, k, s.skip((b0.len() + b1.len() + b2.len() + b3.len() + b4.len()) as int)) == Ok::<(T5::V, nat, nat), DecodeError>((v.5.model(), b5.len(), k))) by {
        assert(T5::decoding(c, k, b5 + r6) == Ok::<(T5::V, nat, nat), DecodeError>((v.5.model(), b5.len(), k)));
    }
    assert(T6::decoding(c, k, s.skip((b0.len() + b1.len() + b2.len() + b3.len() + b4.len() + b5.len()) as int)) == Ok::<(T6::V, nat, nat), DecodeError>((v.6.model(), b6.len(), k))) by {
        assert(T6::decoding(c, k, b6 + r7) == Ok::<(T6::V, nat, nat), DecodeError>((v.6.model(), b6.len(), k)));
    }
    assert(T7::decoding(c, k, s.skip((b0.len() + b1.len() + b2.len() + b3.len() + b4.len() + b5.len() + b6.len()) as int)) == Ok::<(T7::V, nat, nat), DecodeError>((v.7.model(), b7.len(), k))) by {
        assert(T7::decoding(c, k, b7 + r8) == Ok::<(T7::V, nat, nat), DecodeError>((v.7.model(), b7.len(), k)));
    }
    assert(T8::decoding(c, k, s.skip((b0.len() + b1.len() + b2.len() + b3.len() + b4.len() + b5.len() + b6.len() + b7.len()) as int)) == Ok::<(T8::V, nat, nat), DecodeError>((v.8.model(), b8.len(), k))) by {
        assert(T8::decoding(c, k, b8 + r9) == Ok::<(T8::V, nat, nat), DecodeError>((v.8.model(), b8.len(), k)));
    }
    assert((b0 + b1 + b2 + b3 + b4 + b5 + b6 + b7 + b8).len() == b0.len() + b1.len() + b2.len() + b3.len() + b4.len() + b5.len() + b6.len() + b7.len() + b8.len());
}

/// A tuple of ten values decodes from its own bytes, followed by anything, whenever each of them does.
#[verifier::rlimit(40)]
#[verifier::spinoff_prover]
pub proof fn lemma_tuple10_round_trip<T0: Encode + Decode<()>, T1: Encode + Decode<()>, T2: Encode + Decode<()>, T3: Encode + Decode<()>, T4: Encode + Decode<()>, T5: Encode + Decode<()>, T6: Encode + Decode<()>, T7: Encode + Decode<()>, T8: Encode + Decode<()>, T9: Encode + Decode<()>>(v: (T0, T1, T2, T3, T4, T5, T6, T7, T8, T9), c: Configuration, k: nat, rest: Seq<u8>)
    requires
        round_trips(v.0, c, k),
        round_trips(v.1, c, k),
        round_trips(v.2, c, k),
        round_trips(v.3, c, k),
        round_trips(v.4, c, k),
        round_trips(v.5, c, k),
        round_trips(v.6, c, k),
        round_trips(v.7, c, k),
        round_trips(v.8, c, k),
        round_trips(v.9, c, k),
    ensures
        v.encoding(c) matches Ok(b) && <(T0, T1, T2, T3, T4, T5, T6, T7, T8, T9) as Decode<()>>::decoding(c, k, b + rest) == Ok::<
            ((T0::V, T1::V, T2::V, T3::V, T4::V, T5::V, T6::V, T7::V, T8::V, T9::V), nat, nat),
            DecodeError,
        >((v.model(), b.len(), k)),
{
    let b0 = v.0.encoding(c)->Ok_0;
    let b1 = v.1.encoding(c)->Ok_0;
    let b2 = v.2.encoding(c)->Ok_0;
    let b3 = v.3.encoding(c)->Ok_0;
    let b4 = v.4.encoding(c)->Ok_0;
    let b5 = v.5.encoding(c)->Ok_0;
    let b6 = v.6.encoding(c)->Ok_0;
    let b7 = v.7.encoding(c)->Ok_0;
    let b8 = v.8.encoding(c)->Ok_0;
    let b9 = v.9.encoding(c)->Ok_0;
    let r10 = rest;
    let r9 = b9 + r10;
    let r8 = b8 + r9;
    let r7 = b7 + r8;
    let r6 = b6 + r7;
    let r5 = b5 + r6;
    let r4 = b4 + r5;
    let r3 = b3 + r4;
    let r2 = b2 + r3;
    let r1 = b1 + r2;
    let r0 = b0 + r1;
    let s = b0 + b1 + b2 + b3 + b4 + b5 + b6 + b7 + b8 + b9 + rest;
    assert(v.encoding(c) == Ok::<Seq<u8>, EncodeError>(b0 + b1 + b2 + b3 + b4 + b5 + b6 + b7 + b8 + b9));
    assert(s.skip(0) == r0) by {
        assert(s =~= r0);
        assert(s.skip(0) =~= s);
    }
    lemma_skip_past(s, (0) as int, b0, r1);
    lemma_skip_past(s, (b0.len()) as int, b1, r2);
    lemma_skip_past(s, (b0.len() + b1.len()) as int, b2, r3);
    lemma_skip_past(s, (b0.len() + b1.len() + b2.len()) as int, b3, r4);
    lemma_skip_past(s, (b0.len() + b1.len() + b2.len() + b3.len()) as int, b4, r5);
    lemma_skip_past(s, (b0.len() + b1.len() + b2.len() + b3.len() + b4.len()) as int, b5, r6);
    lemma_skip_past(s, (b0.len() + b1.len() + b2.len() + b3.len() + b4.len() + b5.len()) as int, b6, r7);
    lemma_skip_past(s, (b0.len() + b1.len() + b2.len() + b3.len() + b4.len() + b5.len() + b6.len()) as int, b7, r8);
    lemma_skip_past(s, (b0.len() + b1.len() + b2.len() + b3.len() + b4.len() + b5.len() + b6.len() + b7.len()) as int, b8, r9);
    assert(T0::decoding(c, k, s) == Ok::<(T0::V, nat, nat), DecodeError>((v.0.model(), b0.len(), k))) by {
        assert(s =~= r0);
        assert(T0::decoding(c, k, b0 + r1) == Ok::<(T0::V, nat, nat), DecodeError>((v.0.model(), b0.len(), k)));
    }
    assert(T1::decoding(c, k, s.skip((b0.len()) as int)) == Ok::<(T1::V, nat, nat), DecodeError>((v.1.model(), b1.len(), k))) by {
        assert(T1::decoding(c, k, b1 + r2) == Ok::<(T1::V, nat, nat), DecodeError>((v.1.model(), b1.len(), k)));
    }
    assert(T2::decoding(c, k, s.skip((b0.len() + b1.len()) as int)) == Ok::<(T2::V, nat, nat), DecodeError>((v.2.model(), b2.len(), k))) by {
        assert(T2::decoding(c, k, b2 + r3) == Ok::<(T2::V, nat, nat), DecodeError>((v.2.model(), b2.len(), k)));
    }
    assert(T3::decoding(c, k, s.skip((b0.len() + b1.len() + b2.len()) as int)) == Ok::<(T3::V, nat, nat), DecodeError>((v.3.model(), b3.len(), k))) by {
        assert(T3::decoding(c, k, b3 + r4) == Ok::<(T3::V, nat, nat), DecodeError>((v.3.model(), b3.len(), k)));
    }
    assert(T4::decoding(c, k, s.skip((b0.len() + b1.len() + b2.len() + b3.len()) as int)) == Ok::<(T4::V, nat, nat), DecodeError>((v.4.model(), b4.len(), k))) by {
        assert(T4::decoding(c, k, b4 + r5) == Ok::<(T4::V, nat, nat), DecodeError>((v.4.model(), b4.len(), k)));
    }
    assert(T5::decoding(c, k, s.skip((b0.len() + b1.len() + b2.len() + b3.len() + b4.len()) as int)) == Ok::<(T5::V, nat, nat), DecodeError>((v.5.model(), b5.len(), k))) by {
        assert(T5::decoding(c, k, b5 + r6) == Ok::<(T5::V, nat, nat), DecodeError>((v.5.model(), b5.len(), k)));
    }
    assert(T6::decoding(c, k, s.skip((b0.len() + b1.len() + b2.len() + b3.len() + b4.len() + b5.len()) as int)) == Ok::<(T6::V, nat, nat), DecodeError>((v.6.model(), b6.len(), k))) by {
        assert(T6::decoding(c, k, b6 + r7) == Ok::<(T6::V, nat, nat), DecodeError>((v.6.model(), b6.len(), k)));
    }
    assert(T7::decoding(c, k, s.skip((b0.len() + b1.len() + b2.len() + b3.len() + b4.len() + b5.len() + b6.len()) as int)) == Ok::<(T7::V, nat, nat), DecodeError>((v.7.model(), b7.len(), k))) by {
        assert(T7::decoding(c, k, b7 + r8) == Ok::<(T7::V, nat, nat), DecodeError>((v.7.model(), b7.len(), k)));
    }
    assert(T8::decoding(c, k, s.skip((b0.len() + b1.len() + b2.len() + b3.len() + b4.len() + b5.len() + b6.len() + b7.len()) as int)) == Ok::<(T8::V, nat, nat), DecodeError>((v.8.model(), b8.len(), k))) by {
        assert(T8::decoding(c, k, b8 + r9) == Ok::<(T8::V, nat, nat), DecodeError>((v.8.model(), b8.len(), k)));
    }
    assert(T9::decoding(c, k, s.skip((b0.len() + b1.len() + b2.len() + b3.len() + b4.len() + b5.len() + b6.len() + b7.len() + b8.len()) as int)) == Ok::<(T9::V, nat, nat), DecodeError>((v.9.model(), b9.len(), k))) by {
        assert(T9::decoding(c, k, b9 + r10) == Ok::<(T9::V, nat, nat), DecodeError>((v.9.model(), b9.len(), k)));
    }
    assert((b0 + b1 + b2 + b3 + b4 + b5 + b6 + b7 + b8 + b9).len() == b0.len() + b1.len() + b2.len() + b3.len() + b4.len() + b5.len() + b6.len() + b7.len() + b8.len() + b9.len());
}

/// A tuple of eleven values decodes from its own bytes, followed by anything, whenever each of them does.
#[verifier::rlimit(40)]
#[verifier::spinoff_prover]
pub proof fn lemma_tuple11_round_trip<T0: Encode + Decode<()>, T1: Encode + Decode<()>, T2: Encode + Decode<()>, T3: Encode + Decode<()>, T4: Encode + Decode<()>, T5: Encode + Decode<()>, T6: Encode + Decode<()>, T7: Encode + Decode<()>, T8: Encode + Decode<()>, T9: Encode + Decode<()>, T10: Encode + Decode<()>>(v: (T0, T1, T2, T3, T4, T5, T6, T7, T8, T9, T10), c: Configuration, k: nat, rest: Seq<u8>)
    requires
        round_trips(v.0, c, k),
        round_trips(v.1, c, k),
        round_trips(v.2, c, k),
        round_trips(v.3, c, k),
        round_trips(v.4, c, k),
        round_trips(v.5, c, k),
        round_trips(v.6, c, k),
        round_trips(v.7, c, k),
        round_trips(v.8, c, k),
        round_trips(v.9, c, k),
        round_trips(v.10, c, k),
    ensures
        v.encoding(c) matches Ok(b) && <(T0, T1, T2, T3, T4, T5, T6, T7, T8, T9, T10) as Decode<()>>::decoding(c, k, b + rest) == Ok::<
            ((T0::V, T1::V, T2::V, T3::V, T4::V, T5::V, T6::V, T7::V, T8::V, T9::V, T10::V), nat, nat),
            DecodeError,
        >((v.model(), b.len(), k)),
{
    let b0 = v.0.encoding(c)->Ok_0;
    let b1 = v.1.encoding(c)->Ok_0;
    let b2 = v.2.encoding(c)->Ok_0;
    let b3 = v.3.encoding(c)->Ok_0;
    let b4 = v.4.encoding(c)->Ok_0;
    let b5 = v.5.encoding(c)->Ok_0;
    let b6 = v.6.encoding(c)->Ok_0;
    let b7 = v.7.encoding(c)->Ok_0;
    let b8 = v.8.encoding(c)->Ok_0;
    let b9 = v.9.encoding(c)->Ok_0;
    let b10 = v.10.encoding(c)->Ok_0;
    let r11 = rest;
    let r10 = b10 + r11;
    let r9 = b9 + r10;
    let r8 = b8 + r9;
    let r7 = b7 + r8;
    let r6 = b6 + r7;
    let r5 = b5 + r6;
    let r4 = b4 + r5;
    let r3 = b3 + r4;
    let r2 = b2 + r3;
    let r1 = b1 + r2;
    let r0 = b0 + r1;
    let s = b0 + b1 + b2 + b3 + b4 + b5 + b6 + b7 + b8 + b9 + b10 + rest;
    assert(v.encoding(c) == Ok::<Seq<u8>, EncodeError>(b0 + b1 + b2 + b3 + b4 + b5 + b6 + b7 + b8 + b9 + b10));
    assert(s.skip(0) == r0) by {
        assert(s =~= r0);
        assert(s.skip(0) =~= s);
    }
    lemma_skip_past(s, (0) as int, b0, r1);
    lemma_skip_past(s, (b0.len()) as int, b1, r2);
    lemma_skip_past(s, (b0.len() + b1.len()) as int, b2, r3);
    lemma_skip_past(s, (b0.len() + b1.len() + b2.len()) as int, b3, r4);
    lemma_skip_past(s, (b0.len() + b1.len() + b2.len() + b3.len()) as int, b4, r5);
    lemma_skip_past(s, (b0.len() + b1.len() + b2.len() + b3.len() + b4.len()) as int, b5, r6);
    lemma_skip_past(s, (b0.len() + b1.len() + b2.len() + b3.len() + b4.len() + b5.len()) as int, b6, r7);
    lemma_skip_past(s, (b0.len() + b1.len() + b2.len() + b3.len() + b4.len() + b5.len() + b6.len()) as int, b7, r8);
    lemma_skip_past(s, (b0.len() + b1.len() + b2.len() + b3.len() + b4.len() + b5.len() + b6.len() + b7.len()) as int, b8, r9);
    lemma_skip_past(s, (b0.len() + b1.len() + b2.len() + b3.len() + b4.len() + b5.len() + b6.len() + b7.len() + b8.len()) as int, b9, r10);
    assert(T0::decoding(c, k, s) == Ok::<(T0::V, nat, nat), DecodeError>((v.0.model(), b0.len(), k))) by {
        assert(s =~= r0);
        assert(T0::decoding(c, k, b0 + r1) == Ok::<(T0::V, nat, nat), DecodeError>((v.0.model(), b0.len(), k)));
    }
    assert(T1::decoding(c, k, s.skip((b0.len()) as int)) == Ok::<(T1::V, nat, nat), DecodeError>((v.1.model(), b1.len(), k))) by {
        assert(T1::decoding(c, k, b1 + r2) == Ok::<(T1::V, nat, nat), DecodeError>((v.1.model(), b1.len(), k)));
    }
    assert(T2::decoding(c, k, s.skip((b0.len() + b1.len()) as int)) == Ok::<(T2::V, nat, nat), DecodeError>((v.2.model(), b2.len(), k))) by {
        assert(T2::decoding(c, k, b2 + r3) == Ok::<(T2::V, nat, nat), DecodeError>((v.2.model(), b2.len(), k)));
    }
    assert(T3::decoding(c, k, s.skip((b0.len() + b1.len() + b2.len()) as int)) == Ok::<(T3::V, nat, nat), DecodeError>((v.3.model(), b3.len(), k))) by {
        assert(T3::decoding(c, k, b3 + r4) == Ok::<(T3::V, nat, nat), DecodeError>((v.3.model(), b3.len(), k)));
    }
    assert(T4::decoding(c, k, s.skip((b0.len() + b1.len() + b2.len() + b3.len()) as int)) == Ok::<(T4::V, nat, nat), DecodeError>((v.4.model(), b4.len(), k))) by {
        assert(T4::decoding(c, k, b4 + r5) == Ok::<(T4::V, nat, nat), DecodeError>((v.4.model(), b4.len(), k)));
    }
    assert(T5::decoding(c, k, s.skip((b0.len() + b1.len() + b2.len() + b3.len() + b4.len()) as int)) == Ok::<(T5::V, nat, nat), DecodeError>((v.5.model(), b5.len(), k))) by {
        assert(T5::decoding(c, k, b5 + r6) == Ok::<(T5::V, nat, nat), DecodeError>((v.5.model(), b5.len(), k)));
    }
    assert(T6::decoding(c, k, s.skip((b0.len() + b1.len() + b2.len() + b3.len() + b4.len() + b5.len()) as int)) == Ok::<(T6::V, nat, nat), DecodeError>((v.6.model(), b6.len(), k))) by {
        assert(T6::decoding(c, k, b6 + r7) == Ok::<(T6::V, nat, nat), DecodeError>((v.6.model(), b6.len(), k)));
    }
    assert(T7::decoding(c, k, s.skip((b0.len() + b1.len() + b2.len() + b3.len() + b4.len() + b5.len() + b6.len()) as int)) == Ok::<(T7::V, nat, nat), DecodeError>((v.7.model(), b7.len(), k))) by {
        assert(T7::decoding(c, k, b7 + r8) == Ok::<(T7::V, nat, nat), DecodeError>((v.7.model(), b7.len(), k)));
    }
    assert(T8::decoding(c, k, s.skip((b0.len() + b1.len() + b2.len() + b3.len() + b4.len() + b5.len() + b6.len() + b7.len()) as int)) == Ok::<(T8::V, nat, nat), DecodeError>((v.8.model(), b8.len(), k))) by {
        assert(T8::decoding(c, k, b8 + r9) == Ok::<(T8::V, nat, nat), DecodeError>((v.8.model(), b8.len(), k)));
    }
    assert(T9::decoding(c, k, s.skip((b0.len() + b1.len() + b2.len() + b3.len() + b4.len() + b5.len() + b6.len() + b7.len() + b8.len()) as int)) == Ok::<(T9::V, nat, nat), DecodeError>((v.9.model(), b9.len(), k))) by {
        assert(T9::decoding(c, k, b9 + r10) == Ok::<(T9::V, nat, nat), DecodeError>((v.9.model(), b9.len(), k)));
    }
    assert(T10::decoding(c, k, s.skip((b0.len() + b1.len() + b2.len() + b3.len() + b4.len() + b5.len() + b6.len() + b7.len() + b8.len() + b9.len()) as int)) == Ok::<(T10::V, nat, nat), DecodeError>((v.10.model(), b10.len(), k))) by {
        assert(T10::decoding(c, k, b10 + r11) == Ok::<(T10::V, nat, nat), DecodeError>((v.10.model(), b10.len(), k)));
    }
    assert((b0 + b1 + b2 + b3 + b4 + b5 + b6 + b7 + b8 + b9 + b10).len() == b0.len() + b1.len() + b2.len() + b3.len() + b4.len() + b5.len() + b6.len() + b7.len() + b8.len() + b9.len() + b10.len());
}

/// A tuple of twelve values decodes from its own bytes, followed by anything, whenever each of them does.
#[verifier::rlimit(40)]
#[verifier::spinoff_prover]
pub proof fn lemma_tuple12_round_trip<T0: Encode + Decode<()>, T1: Encode + Decode<()>, T2: Encode + Decode<()>, T3: Encode + Decode<()>, T4: Encode + Decode<()>, T5: Encode + Decode<()>, T6: Encode + Decode<()>, T7: Encode + Decode<()>, T8: Encode + Decode<()>, T9: Encode + Decode<()>, T10: Encode + Decode<()>, T11: Encode + Decode<()>>(v: (T0, T1, T2, T3, T4, T5, T6, T7, T8, T9, T10, T11), c: Configuration, k: nat, rest: Seq<u8>)
    requires
        round_trips(v.0, c, k),
        round_trips(v.1, c, k),
        round_trips(v.2, c, k),
        round_trips(v.3, c, k),
        round_trips(v.4, c, k),
        round_trips(v.5, c, k),
        round_trips(v.6, c, k),
        round_trips(v.7, c, k),
        round_trips(v.8, c, k),
        round_trips(v.9, c, k),
        round_trips(v.10, c, k),
        round_trips(v.11, c, k),
    ensures
        v.encoding(c) matches Ok(b) && <(T0, T1, T2, T3, T4, T5, T6, T7, T8, T9, T10, T11) as Decode<()>>::decoding(c, k, b + rest) == Ok::<
            ((T0::V, T1::V, T2::V, T3::V, T4::V, T5::V, T6::V, T7::V, T8::V, T9::V, T10::V, T11::V), nat, nat),
            DecodeError,
        >((v.model(), b.len(), k)),
{
    let b0 = v.0.encoding(c)->Ok_0;
    let b1 = v.1.encoding(c)->Ok_0;
    let b2 = v.2.encoding(c)->Ok_0;
    let b3 = v.3.encoding(c)->Ok_0;
    let b4 = v.4.encoding(c)->Ok_0;
    let b5 = v.5.encoding(c)->Ok_0;
    let b6 = v.6.encoding(c)->Ok_0;
    let b7 = v.7.encoding(c)->Ok_0;
    let b8 = v.8.encoding(c)->Ok_0;
    let b9 = v.9.encoding(c)->Ok_0;
    let b10 = v.10.encoding(c)->Ok_0;
    let b11 = v.11.encoding(c)->Ok_0;
    let r12 = rest;
    let r11 = b11 + r12;
    let r10 = b10 + r11;
    let r9 = b9 + r10;
    let r8 = b8 + r9;
    let r7 = b7 + r8;
    let r6 = b6 + r7;
    let r5 = b5 + r6;
    let r4 = b4 + r5;
    let r3 = b3 + r4;
    let r2 = b2 + r3;
    let r1 = b1 + r2;
    let r0 = b0 + r1;
    let s = b0 + b1 + b2 + b3 + b4 + b5 + b6 + b7 + b8 + b9 + b10 + b11 + rest;
    assert(v.encoding(c) == Ok::<Seq<u8>, EncodeError>(b0 + b1 + b2 + b3 + b4 + b5 + b6 + b7 + b8 + b9 + b10 + b11));
    assert(s.skip(0) == r0) by {
        assert(s =~= r0);
        assert(s.skip(0) =~= s);
    }
    lemma_skip_past(s, (0) as int, b0, r1);
    lemma_skip_past(s, (b0.len()) as int, b1, r2);
    lemma_skip_past(s, (b0.len() + b1.len()) as int, b2, r3);
    lemma_skip_past(s, (b0.len() + b1.len() + b2.len()) as int, b3, r4);
    lemma_skip_past(s, (b0.len() + b1.len() + b2.len() + b3.len()) as int, b4, r5);
    lemma_skip_past(s, (b0.len() + b1.len() + b2.len() + b3.len() + b4.len()) as int, b5, r6);
    lemma_skip_past(s, (b0.len() + b1.len() + b2.len() + b3.len() + b4.len() + b5.len()) as int, b6, r7);
    lemma_skip_past(s, (b0.len() + b1.len() + b2.len() + b3.len() + b4.len() + b5.len() + b6.len()) as int, b7, r8);
    lemma_skip_past(s, (b0.len() + b1.len() + b2.len() + b3.len() + b4.len() + b5.len() + b6.len() + b7.len()) as int, b8, r9);
    lemma_skip_past(s, (b0.len() + b1.len() + b2.len() + b3.len() + b4.len() + b5.len() + b6.len() + b7.len() + b8.len()) as int, b9, r10);
    lemma_skip_past(s, (b0.len() + b1.len() + b2.len() + b3.len() + b4.len() + b5.len() + b6.len() + b7.len() + b8.len() + b9.len()) as int, b10, r11);
    assert(T0::decoding(c, k, s) == Ok::<(T0::V, nat, nat), DecodeError>((v.0.model(), b0.len(), k))) by {
        assert(s =~= r0);
        assert(T0::decoding(c, k, b0 + r1) == Ok::<(T0::V, nat, nat), DecodeError>((v.0.model(), b0.len(), k)));
    }
    assert(T1::decoding(c, k, s.skip((b0.len()) as int)) == Ok::<(T1::V, nat, nat), DecodeError>((v.1.model(), b1.len(), k))) by {
        assert(T1::decoding(c, k, b1 + r2) == Ok::<(T1::V, nat, nat), DecodeError>((v.1.model(), b1.len(), k)));
    }
    assert(T2::decoding(c, k, s.skip((b0.len() + b1.len()) as int)) == Ok::<(T2::V, nat, nat), DecodeError>((v.2.model(), b2.len(), k))) by {
        assert(T2::decoding(c, k, b2 + r3) == Ok::<(T2::V, nat, nat), DecodeError>((v.2.model(), b2.len(), k)));
    }
    assert(T3::decoding(c, k, s.skip((b0.len() + b1.len() + b2.len()) as int)) == Ok::<(T3::V, nat, nat), DecodeError>((v.3.model(), b3.len(), k))) by {
        assert(T3::decoding(c, k, b3 + r4) == Ok::<(T3::V, nat, nat), DecodeError>((v.3.model(), b3.len(), k)));
    }
    assert(T4::decoding(c, k, s.skip((b0.len() + b1.len() + b2.len() + b3.len()) as int)) == Ok::<(T4::V, nat, nat), DecodeError>((v.4.model(), b4.len(), k))) by {
        assert(T4::decoding(c, k, b4 + r5) == Ok::<(T4::V, nat, nat), DecodeError>((v.4.model(), b4.len(), k)));
    }
    assert(T5::decoding(c, k, s.skip((b0.len() + b1.len() + b2.len() + b3.len() + b4.len()) as int)) == Ok::<(T5::V, nat, nat), DecodeError>((v.5.model(), b5.len(), k))) by {
        assert(T5::decoding(c, k, b5 + r6) == Ok::<(T5::V, nat, nat), DecodeError>((v.5.model(), b5.len(), k)));
    }
    assert(T6::decoding(c, k, s.skip((b0.len() + b1.len() + b2.len() + b3.len() + b4.len() + b5.len()) as int)) == Ok::<(T6::V, nat, nat), DecodeError>((v.6.model(), b6.len(), k))) by {
        assert(T6::decoding(c, k, b6 + r7) == Ok::<(T6::V, nat, nat), DecodeError>((v.6.model(), b6.len(), k)));
    }
    assert(T7::decoding(c, k, s.skip((b0.len() + b1.len() + b2.len() + b3.len() + b4.len() + b5.len() + b6.len()) as int)) == Ok::<(T7::V, nat, nat), DecodeError>((v.7.model(), b7.len(), k))) by {
        assert(T7::decoding(c, k, b7 + r8) == Ok::<(T7::V, nat, nat), DecodeError>((v.7.model(), b7.len(), k)));
    }
    assert(T8::decoding(c, k, s.skip((b0.len() + b1.len() + b2.len() + b3.len() + b4.len() + b5.len() + b6.len() + b7.len()) as int)) == Ok::<(T8::V, nat, nat), DecodeError>((v.8.model(), b8.len(), k))) by {
        assert(T8::decoding(c, k, b8 + r9) == Ok::<(T8::V, nat, nat), DecodeError>((v.8.model(), b8.len(), k)));
    }
    assert(T9::decoding(c, k, s.skip((b0.len() + b1.len() + b2.len() + b3.len() + b4.len() + b5.len() + b6.len() + b7.len() + b8.len()) as int)) == Ok::<(T9::V, nat, nat), DecodeError>((v.9.model(), b9.len(), k))) by {
        assert(T9::decoding(c, k, b9 + r10) == Ok::<(T9::V, nat, nat), DecodeError>((v.9.model(), b9.len(), k)));
    }
    assert(T10::decoding(c, k, s.skip((b0.len() + b1.len() + b2.len() + b3.len() + b4.len() + b5.len() + b6.len() + b7.len() + b8.len() + b9.len()) as int)) == Ok::<(T10::V, nat, nat), DecodeError>((v.10.model(), b10.len(), k))) by {
        assert(T10::decoding(c, k, b10 + r11) == Ok::<(T10::V, nat, nat), DecodeError>((v.10.model(), b10.len(), k)));
    }
    assert(T11::decoding(c, k, s.skip((b0.len() + b1.len() + b2.len() + b3.len() + b4.len() + b5.len() + b6.len() + b7.len() + b8.len() + b9.len() + b10.len()) as int)) == Ok::<(T11::V, nat, nat), DecodeError>((v.11.model(), b11.len(), k))) by {
        assert(T11::decoding(c, k, b11 + r12) == Ok::<(T11::V, nat, nat), DecodeError>((v.11.model(), b11.len(), k)));
    }
    assert((b0 + b1 + b2 + b3 + b4 + b5 + b6 + b7 + b8 + b9 + b10 + b11).len() == b0.len() + b1.len() + b2.len() + b3.len() + b4.len() + b5.len() + b6.len() + b7.len() + b8.len() + b9.len() + b10.len() + b11.len());
}

/// A tuple of thirteen values decodes from its own bytes, followed by anything, whenever each of them does.
#[verifier::rlimit(40)]
#[verifier::spinoff_prover]
pub proof fn lemma_tuple13_round_trip<T0: Encode + Decode<()>, T1: Encode + Decode<()>, T2: Encode + Decode<()>, T3: Encode + Decode<()>, T4: Encode + Decode<()>, T5: Encode + Decode<()>, T6: Encode + Decode<()>, T7: Encode + Decode<()>, T8: Encode + Decode<()>, T9: Encode + Decode<()>, T10: Encode + Decode<()>, T11: Encode + Decode<()>, T12: Encode + Decode<()>>(v: (T0, T1, T2, T3, T4, T5, T6, T7, T8, T9, T10, T11, T12), c: Configuration, k: nat, rest: Seq<u8>)
    requires
        round_trips(v.0, c, k),
        round_trips(v.1, c, k),
        round_trips(v.2, c, k),
        round_trips(v.3, c, k),
        round_trips(v.4, c, k),
        round_trips(v.5, c, k),
        round_trips(v.6, c, k),
        round_trips(v.7, c, k),
        round_trips(v.8, c, k),
        round_trips(v.9, c, k),
        round_trips(v.10, c, k),
        round_trips(v.11, c, k),
        round_trips(v.12, c, k),
    ensures
        v.encoding(c) matches Ok(b) && <(T0, T1, T2, T3, T4, T5, T6, T7, T8, T9, T10, T11, T12) as Decode<()>>::decoding(c, k, b + rest) == Ok::<
            ((T0::V, T1::V, T2::V, T3::V, T4::V, T5::V, T6::V, T7::V, T8::V, T9::V, T10::V, T11::V, T12::V), nat, nat),
            DecodeError,
        >((v.model(), b.len(), k)),
{
    let b0 = v.0.encoding(c)->Ok_0;
    let b1 = v.1.encoding(c)->Ok_0;
    let b2 = v.2.encoding(c)->Ok_0;
    let b3 = v.3.encoding(c)->Ok_0;
    let b4 = v.4.encoding(c)->Ok_0;
    let b5 = v.5.encoding(c)->Ok_0;
    let b6 = v.6.encoding(c)->Ok_0;
    let b7 = v.7.encoding(c)->Ok_0;
    let b8 = v.8.encoding(c)->Ok_0;
    let b9 = v.9.encoding(c)->Ok_0;
    let b10 = v.10.encoding(c)->Ok_0;
    let b11 = v.11.encoding(c)->Ok_0;
    let b12 = v.12.encoding(c)->Ok_0;
    let r13 = rest;
    let r12 = b12 + r13;
    let r11 = b11 + r12;
    let r10 = b10 + r11;
    let r9 = b9 + r10;
    let r8 = b8 + r9;
    let r7 = b7 + r8;
    let r6 = b6 + r7;
    let r5 = b5 + r6;
    let r4 = b4 + r5;
    let r3 = b3 + r4;
    let r2 = b2 + r3;
    let r1 = b1 + r2;
    let r0 = b0 + r1;
    let s = b0 + b1 + b2 + b3 + b4 + b5 + b6 + b7 + b8 + b9 + b10 + b11 + b12 + rest;
    assert(v.encoding(c) == Ok::<Seq<u8>, EncodeError>(b0 + b1 + b2 + b3 + b4 + b5 + b6 + b7 + b8 + b9 + b10 + b11 + b12));
    assert(s.skip(0) == r0) by {
        assert(s =~= r0);
        assert(s.skip(0) =~= s);
    }
    lemma_skip_past(s, (0) as int, b0, r1);
    lemma_skip_past(s, (b0.len()) as int, b1, r2);
    lemma_skip_past(s, (b0.len() + b1.len()) as int, b2, r3);
    lemma_skip_past(s, (b0.len() + b1.len() + b2.len()) as int, b3, r4);
    lemma_skip_past(s, (b0.len() + b1.len() + b2.len() + b3.len()) as int, b4, r5);
    lemma_skip_past(s, (b0.len() + b1.len() + b2.len() + b3.len() + b4.len()) as int, b5, r6);
    lemma_skip_past(s, (b0.len() + b1.len() + b2.len() + b3.len() + b4.len() + b5.len()) as int, b6, r7);
    lemma_skip_past(s, (b0.len() + b1.len() + b2.len() + b3.len() + b4.len() + b5.len() + b6.len()) as int, b7, r8);
    lemma_skip_past(s, (b0.len() + b1.len() + b2.len() + b3.len() + b4.len() + b5.len() + b6.len() + b7.len()) as int, b8, r9);
    lemma_skip_past(s, (b0.len() + b1.len() + b2.len() + b3.len() + b4.len() + b5.len() + b6.len() + b7.len() + b8.len()) as int, b9, r10);
    lemma_skip_past(s, (b0.len() + b1.len() + b2.len() + b3.len() + b4.len() + b5.len() + b6.len() + b7.len() + b8.len() + b9.len()) as int, b10, r11);
    lemma_skip_past(s, (b0.len() + b1.len() + b2.len() + b3.len() + b4.len() + b5.len() + b6.len() + b7.len() + b8.len() + b9.len() + b10.len()) as int, b11, r12);
    assert(T0::decoding(c, k, s) == Ok::<(T0::V, nat, nat), DecodeError>((v.0.model(), b0.len(), k))) by {
        assert(s =~= r0);
        assert(T0::decoding(c, k, b0 + r1) == Ok::<(T0::V, nat, nat), DecodeError>((v.0.model(), b0.len(), k)));
    }
    assert(T1::decoding(c, k, s.skip((b0.len()) as int)) == Ok::<(T1::V, nat, nat), DecodeError>((v.1.model(), b1.len(), k))) by {
        assert(T1::decoding(c, k, b1 + r2) == Ok::<(T1::V, nat, nat), DecodeError>((v.1.model(), b1.len(), k)));
    }
    assert(T2::decoding(c, k, s.skip((b0.len() + b1.len()) as int)) == Ok::<(T2::V, nat, nat), DecodeError>((v.2.model(), b2.len(), k))) by {
        assert(T2::decoding(c, k, b2 + r3) == Ok::<(T2::V, nat, nat), DecodeError>((v.2.model(), b2.len(), k)));
    }
    assert(T3::decoding(c, k, s.skip((b0.len() + b1.len() + b2.len()) as int)) == Ok::<(T3::V, nat, nat), DecodeError>((v.3.model(), b3.len(), k))) by {
        assert(T3::decoding(c, k, b3 + r4) == Ok::<(T3::V, nat, nat), DecodeError>((v.3.model(), b3.len(), k)));
    }
    assert(T4::decoding(c, k, s.skip((b0.len() + b1.len() + b2.len() + b3.len()) as int)) == Ok::<(T4::V, nat, nat), DecodeError>((v.4.model(), b4.len(), k))) by {
        assert(T4::decoding(c, k, b4 + r5) == Ok::<(T4::V, nat, nat), DecodeError>((v.4.model(), b4.len(), k)));
    }
    assert(T5::decoding(c, k, s.skip((b0.len() + b1.len() + b2.len() + b3.len() + b4.len()) as int)) == Ok::<(T5::V, nat, nat), DecodeError>((v.5.model(), b5.len(), k))) by {
        assert(T5::decoding(c, k, b5 + r6) == Ok::<(T5::V, nat, nat), DecodeError>((v.5.model(), b5.len(), k)));
    }
    assert(T6::decoding(c, k, s.skip((b0.len() + b1.len() + b2.len() + b3.len() + b4.len() + b5.len()) as int)) == Ok::<(T6::V, nat, nat), DecodeError>((v.6.model(), b6.len(), k))) by {
        assert(T6::decoding(c, k, b6 + r7) == Ok::<(T6::V, nat, nat), DecodeError>((v.6.model(), b6.len(), k)));
    }
    assert(T7::decoding(c, k, s.skip((b0.len() + b1.len() + b2.len() + b3.len() + b4.len() + b5.len() + b6.len()) as int)) == Ok::<(T7::V, nat, nat), DecodeError>((v.7.model(), b7.len(), k))) by {
        assert(T7::decoding(c, k, b7 + r8) == Ok::<(T7::V, nat, nat), DecodeError>((v.7.model(), b7.len(), k)));
    }
    assert(T8::decoding(c, k, s.skip((b0.len() + b1.len() + b2.len() + b3.len() + b4.len() + b5.len() + b6.len() + b7.len()) as int)) == Ok::<(T8::V, nat, nat), DecodeError>((v.8.model(), b8.len(), k))) by {
        assert(T8::decoding(c, k, b8 + r9) == Ok::<(T8::V, nat, nat), DecodeError>((v.8.model(), b8.len(), k)));
    }
    assert(T9::decoding(c, k, s.skip((b0.len() + b1.len() + b2.len() + b3.len() + b4.len() + b5.len() + b6.len() + b7.len() + b8.len()) as int)) == Ok::<(T9::V, nat, nat), DecodeError>((v.9.model(), b9.len(), k))) by {
        assert(T9::decoding(c, k, b9 + r10) == Ok::<(T9::V, nat, nat), DecodeError>((v.9.model(), b9.len(), k)));
    }
    assert(T10::decoding(c, k, s.skip((b0.len() + b1.len() + b2.len() + b3.len() + b4.len() + b5.len() + b6.len() + b7.len() + b8.len() + b9.len()) as int)) == Ok::<(T10::V, nat, nat), DecodeError>((v.10.model(), b10.len(), k))) by {
        assert(T10::decoding(c, k, b10 + r11) == Ok::<(T10::V, nat, nat), DecodeError>((v.10.model(), b10.len(), k)));
    }
    assert(T11::decoding(c, k, s.skip((b0.len() + b1.len() + b2.len() + b3.len() + b4.len() + b5.len() + b6.len() + b7.len() + b8.len() + b9.len() + b10.len()) as int)) == Ok::<(T11::V, nat, nat), DecodeError>((v.11.model(), b11.len(), k))) by {
        assert(T11::decoding(c, k, b11 + r12) == Ok::<(T11::V, nat, nat), DecodeError>((v.11.model(), b11.len(), k)));
    }
    assert(T12::decoding(c, k, s.skip((b0.len() + b1.len() + b2.len() + b3.len() + b4.len() + b5.len() + b6.len() + b7.len() + b8.len() + b9.len() + b10.len() + b11.len()) as int)) == Ok::<(T12::V, nat, nat), DecodeError>((v.12.model(), b12.len(), k))) by {
        assert(T12::decoding(c, k, b12 + r13) == Ok::<(T12::V, nat, nat), DecodeError>((v.12.model(), b12.len(), k)));
    }
    assert((b0 + b1 + b2 + b3 + b4 + b5 + b6 + b7 + b8 + b9 + b10 + b11 + b12).len() == b0.len() + b1.len() + b2.len() + b3.len() + b4.len() + b5.len() + b6.len() + b7.len() + b8.len() + b9.len() + b10.len() + b11.len() + b12.len());
}

/// A tuple of fourteen values decodes from its own bytes, followed by anything, whenever each of them does.
#[verifier::rlimit(40)]
#[verifier::spinoff_prover]
pub proof fn lemma_tuple14_round_trip<T0: Encode + Decode<()>, T1: Encode + Decode<()>, T2: Encode + Decode<()>, T3: Encode + Decode<()>, T4: Encode + Decode<()>, T5: Encode + Decode<()>, T6: Encode + Decode<()>, T7: Encode + Decode<()>, T8: Encode + Decode<()>, T9: Encode + Decode<()>, T10: Encode + Decode<()>, T11: Encode + Decode<()>, T12: Encode + Decode<()>, T13: Encode + Decode<()>>(v: (T0, T1, T2, T3, T4, T5, T6, T7, T8, T9, T10, T11, T12, T13), c: Configuration, k: nat, rest: Seq<u8>)
    requires
        round_trips(v.0, c, k),
        round_trips(v.1, c, k),
        round_trips(v.2, c, k),
        round_trips(v.3, c, k),
        round_trips(v.4, c, k),
        round_trips(v.5, c, k),
        round_trips(v.6, c, k),
        round_trips(v.7, c, k),
        round_trips(v.8, c, k),
        round_trips(v.9, c, k),
        round_trips(v.10, c, k),
        round_trips(v.11, c, k),
        round_trips(v.12, c, k),
        round_trips(v.13, c, k),
    ensures
        v.encoding(c) matches Ok(b) && <(T0, T1, T2, T3, T4, T5, T6, T7, T8, T9, T10, T11, T12, T13) as Decode<()>>::decoding(c, k, b + rest) == Ok::<
            ((T0::V, T1::V, T2::V, T3::V, T4::V, T5::V, T6::V, T7::V, T8::V, T9::V, T10::V, T11::V, T12::V, T13::V), nat, nat),
            DecodeError,
        >((v.model(), b.len(), k)),
{
    let b0 = v.0.encoding(c)->Ok_0;
    let b1 = v.1.encoding(c)->Ok_0;
    let b2 = v.2.encoding(c)->Ok_0;
    let b3 = v.3.encoding(c)->Ok_0;
    let b4 = v.4.encoding(c)->Ok_0;
    let b5 = v.5.encoding(c)->Ok_0;
    let b6 = v.6.encoding(c)->Ok_0;
    let b7 = v.7.encoding(c)->Ok_0;
    let b8 = v.8.encoding(c)->Ok_0;
    let b9 = v.9.encoding(c)->Ok_0;
    let b10 = v.10.encoding(c)->Ok_0;
    let b11 = v.11.encoding(c)->Ok_0;
    let b12 = v.12.encoding(c)->Ok_0;
    let b13 = v.13.encoding(c)->Ok_0;
    let r14 = rest;
    let r13 = b13 + r14;
    let r12 = b12 + r13;
    let r11 = b11 + r12;
    let r10 = b10 + r11;
    let r9 = b9 + r10;
    let r8 = b8 + r9;
    let r7 = b7 + r8;
    let r6 = b6 + r7;
    let r5 = b5 + r6;
    let r4 = b4 + r5;
    let r3 = b3 + r4;
    let r2 = b2 + r3;
    let r1 = b1 + r2;
    let r0 = b0 + r1;
    let s = b0 + b1 + b2 + b3 + b4 + b5 + b6 + b7 + b8 + b9 + b10 + b11 + b12 + b13 + rest;
    assert(v.encoding(c) == Ok::<Seq<u8>, EncodeError>(b0 + b1 + b2 + b3 + b4 + b5 + b6 + b7 + b8 + b9 + b10 + b11 + b12 + b13));
    assert(s.skip(0) == r0) by {
        assert(s =~= r0);
        assert(s.skip(0) =~= s);
    }
    lemma_skip_past(s, (0) as int, b0, r1);
    lemma_skip_past(s, (b0.len()) as int, b1, r2);
    lemma_skip_past(s, (b0.len() + b1.len()) as int, b2, r3);
    lemma_skip_past(s, (b0.len() + b1.len() + b2.len()) as int, b3, r4);
    lemma_skip_past(s, (b0.len() + b1.len() + b2.len() + b3.len()) as int, b4, r5);
    lemma_skip_past(s, (b0.len() + b1.len() + b2.len() + b3.len() + b4.len()) as int, b5, r6);
    lemma_skip_past(s, (b0.len() + b1.len() + b2.len() + b3.len() + b4.len() + b5.len()) as int, b6, r7);
    lemma_skip_past(s, (b0.len() + b1.len() + b2.len() + b3.len() + b4.len() + b5.len() + b6.len()) as int, b7, r8);
    lemma_skip_past(s, (b0.len() + b1.len() + b2.len() + b3.len() + b4.len() + b5.len() + b6.len() + b7.len()) as int, b8, r9);
    lemma_skip_past(s, (b0.len() + b1.len() + b2.len() + b3.len() + b4.len() + b5.len() + b6.len() + b7.len() + b8.len()) as int, b9, r10);
    lemma_skip_past(s, (b0.len() + b1.len() + b2.len() + b3.len() + b4.len() + b5.len() + b6.len() + b7.len() + b8.len() + b9.len()) as int, b10, r11);
    lemma_skip_past(s, (b0.len() + b1.len() + b2.len() + b3.len() + b4.len() + b5.len() + b6.len() + b7.len() + b8.len() + b9.len() + b10.len()) as int, b11, r12);
    lemma_skip_past(s, (b0.len() + b1.len() + b2.len() + b3.len() + b4.len() + b5.len() + b6.len() + b7.len() + b8.len() + b9.len() + b10.len() + b11.len()) as int, b12, r13);
    assert(T0::decoding(c, k, s) == Ok::<(T0::V, nat, nat), DecodeError>((v.0.model(), b0.len(), k))) by {
        assert(s =~= r0);
        assert(T0::decoding(c, k, b0 + r1) == Ok::<(T0::V, nat, nat), DecodeError>((v.0.model(), b0.len(), k)));
    }
    assert(T1::decoding(c, k, s.skip((b0.len()) as int)) == Ok::<(T1::V, nat, nat), DecodeError>((v.1.model(), b1.len(), k))) by {
        assert(T1::decoding(c, k, b1 + r2) == Ok::<(T1::V, nat, nat), DecodeError>((v.1.model(), b1.len(), k)));
    }
    assert(T2::decoding(c, k, s.skip((b0.len() + b1.len()) as int)) == Ok::<(T2::V, nat, nat), DecodeError>((v.2.model(), b2.len(), k))) by {
        assert(T2::decoding(c, k, b2 + r3) == Ok::<(T2::V, nat, nat), DecodeError>((v.2.model(), b2.len(), k)));
    }
    assert(T3::decoding(c, k, s.skip((b0.len() + b1.len() + b2.len()) as int)) == Ok::<(T3::V, nat, nat), DecodeError>((v.3.model(), b3.len(), k))) by {
        assert(T3::decoding(c, k, b3 + r4) == Ok::<(T3::V, nat, nat), DecodeError>((v.3.model(), b3.len(), k)));
    }
    assert(T4::decoding(c, k, s.skip((b0.len() + b1.len() + b2.len() + b3.len()) as int)) == Ok::<(T4::V, nat, nat), DecodeError>((v.4.model(), b4.len(), k))) by {
        assert(T4::decoding(c, k, b4 + r5) == Ok::<(T4::V, nat, nat), DecodeError>((v.4.model(), b4.len(), k)));
    }
    assert(T5::decoding(c, k, s.skip((b0.len() + b1.len() + b2.len() + b3.len() + b4.len()) as int)) == Ok::<(T5::V, nat, nat), DecodeError>((v.5.model(), b5.len(), k))) by {
        assert(T5::decoding(c, k, b5 + r6) == Ok::<(T5::V, nat, nat), DecodeError>((v.5.model(), b5.len(), k)));
    }
    assert(T6::decoding(c, k, s.skip((b0.len() + b1.len() + b2.len() + b3.len() + b4.len() + b5.len()) as int)) == Ok::<(T6::V, nat, nat), DecodeError>((v.6.model(), b6.len(), k))) by {
        assert(T6::decoding(c, k, b6 + r7) == Ok::<(T6::V, nat, nat), DecodeError>((v.6.model(), b6.len(), k)));
    }
    assert(T7::decoding(c, k, s.skip((b0.len() + b1.len() + b2.len() + b3.len() + b4.len() + b5.len() + b6.len()) as int)) == Ok::<(T7::V, nat, nat), DecodeError>((v.7.model(), b7.len(), k))) by {
        assert(T7::decoding(c, k, b7 + r8) == Ok::<(T7::V, nat, nat), DecodeError>((v.7.model(), b7.len(), k)));
    }
    assert(T8::decoding(c, k, s.skip((b0.len() + b1.len() + b2.len() + b3.len() + b4.len() + b5.len() + b6.len() + b7.len()) as int)) == Ok::<(T8::V, nat, nat), DecodeError>((v.8.model(), b8.len(), k))) by {
        assert(T8::decoding(c, k, b8 + r9) == Ok::<(T8::V, nat, nat), DecodeError>((v.8.model(), b8.len(), k)));
    }
    assert(T9::decoding(c, k, s.skip((b0.len() + b1.len() + b2.len() + b3.len() + b4.len() + b5.len() + b6.len() + b7.len() + b8.len()) as int)) == Ok::<(T9::V, nat, nat), DecodeError>((v.9.model(), b9.len(), k))) by {
        assert(T9::decoding(c, k, b9 + r10) == Ok::<(T9::V, nat, nat), DecodeError>((v.9.model(), b9.len(), k)));
    }
    assert(T10::decoding(c, k, s.skip((b0.len() + b1.len() + b2.len() + b3.len() + b4.len() + b5.len() + b6.len() + b7.len() + b8.len() + b9.len()) as int)) == Ok::<(T10::V, nat, nat), DecodeError>((v.10.model(), b10.len(), k))) by {
        assert(T10::decoding(c, k, b10 + r11) == Ok::<(T10::V, nat, nat), DecodeError>((v.10.model(), b10.len(), k)));
    }
    assert(T11::decoding(c, k, s.skip((b0.len() + b1.len() + b2.len() + b3.len() + b4.len() + b5.len() + b6.len() + b7.len() + b8.len() + b9.len() + b10.len()) as int)) == Ok::<(T11::V, nat, nat), DecodeError>((v.11.model(), b11.len(), k))) by {
        assert(T11::decoding(c, k, b11 + r12) == Ok::<(T11::V, nat, nat), DecodeError>((v.11.model(), b11.len(), k)));
    }
    assert(T12::decoding(c, k, s.skip((b0.len() + b1.len() + b2.len() + b3.len() + b4.len() + b5.len() + b6.len() + b7.len() + b8.len() + b9.len() + b10.len() + b11.len()) as int)) == Ok::<(T12::V, nat, nat), DecodeError>((v.12.model(), b12.len(), k))) by {
        assert(T12::decoding(c, k, b12 + r13) == Ok::<(T12::V, nat, nat), DecodeError>((v.12.model(), b12.len(), k)));
    }
    assert(T13::decoding(c, k, s.skip((b0.len() + b1.len() + b2.len() + b3.len() + b4.len() + b5.len() + b6.len() + b7.len() + b8.len() + b9.len() + b10.len() + b11.len() + b12.len()) as int)) == Ok::<(T13::V, nat, nat), DecodeError>((v.13.model(), b13.len(), k))) by {
        assert(T13::decoding(c, k, b13 + r14) == Ok::<(T13::V, nat, nat), DecodeError>((v.13.model(), b13.len(), k)));
    }
    assert((b0 + b1 + b2 + b3 + b4 + b5 + b6 + b7 + b8 + b9 + b10 + b11 + b12 + b13).len() == b0.len() + b1.len() + b2.len() + b3.len() + b4.len() + b5.len() + b6.len() + b7.len() + b8.len() + b9.len() + b10.len() + b11.len() + b12.len() + b13.len());
}

/// A tuple of fifteen values decodes from its own bytes, followed by anything, whenever each of them does.
#[verifier::rlimit(40)]
#[verifier::spinoff_prover]
pub proof fn lemma_tuple15_round_trip<T0: Encode + Decode<()>, T1: Encode + Decode<()>, T2: Encode + Decode<()>, T3: Encode + Decode<()>, T4: Encode + Decode<()>, T5: Encode + Decode<()>, T6: Encode + Decode<()>, T7: Encode + Decode<()>, T8: Encode + Decode<()>, T9: Encode + Decode<()>, T10: Encode + Decode<()>, T11: Encode + Decode<()>, T12: Encode + Decode<()>, T13: Encode + Decode<()>, T14: Encode + Decode<()>>(v: (T0, T1, T2, T3, T4, T5, T6, T7, T8, T9, T10, T11, T12, T13, T14), c: Configuration, k: nat, rest: Seq<u8>)
    requires
        round_trips(v.0, c, k),
        round_trips(v.1, c, k),
        round_trips(v.2, c, k),
        round_trips(v.3, c, k),
        round_trips(v.4, c, k),
        round_trips(v.5, c, k),
        round_trips(v.6, c, k),
        round_trips(v.7, c, k),
        round_trips(v.8, c, k),
        round_trips(v.9, c, k),
        round_trips(v.10, c, k),
        round_trips(v.11, c, k),
        round_trips(v.12, c, k),
        round_trips(v.13, c, k),
        round_trips(v.14, c, k),
    ensures
        v.encoding(c) matches Ok(b) && <(T0, T1, T2, T3, T4, T5, T6, T7, T8, T9, T10, T11, T12, T13, T14) as Decode<()>>::decoding(c, k, b + rest) == Ok::<
            ((T0::V, T1::V, T2::V, T3::V, T4::V, T5::V, T6::V, T7::V, T8::V, T9::V, T10::V, T11::V, T12::V, T13::V, T14::V), nat, nat),
            DecodeError,
        >((v.model(), b.len(), k)),
{
    let b0 = v.0.encoding(c)->Ok_0;
    let b1 = v.1.encoding(c)->Ok_0;
    let b2 = v.2.encoding(c)->Ok_0;
    let b3 = v.3.encoding(c)->Ok_0;
    let b4 = v.4.encoding(c)->Ok_0;
    let b5 = v.5.encoding(c)->Ok_0;
    let b6 = v.6.encoding(c)->Ok_0;
    let b7 = v.7.encoding(c)->Ok_0;
    let b8 = v.8.encoding(c)->Ok_0;
    let b9 = v.9.encoding(c)->Ok_0;
    let b10 = v.10.encoding(c)->Ok_0;
    let b11 = v.11.encoding(c)->Ok_0;
    let b12 = v.12.encoding(c)->Ok_0;
    let b13 = v.13.encoding(c)->Ok_0;
    let b14 = v.14.encoding(c)->Ok_0;
    let r15 = rest;
    let r14 = b14 + r15;
    let r13 = b13 + r14;
    let r12 = b12 + r13;
    let r11 = b11 + r12;
    let r10 = b10 + r11;
    let r9 = b9 + r10;
    let r8 = b8 + r9;
    let r7 = b7 + r8;
    let r6 = b6 + r7;
    let r5 = b5 + r6;
    let r4 = b4 + r5;
    let r3 = b3 + r4;
    let r2 = b2 + r3;
    let r1 = b1 + r2;
    let r0 = b0 + r1;
    let s = b0 + b1 + b2 + b3 + b4 + b5 + b6 + b7 + b8 + b9 + b10 + b11 + b12 + b13 + b14 + rest;
    assert(v.encoding(c) == Ok::<Seq<u8>, EncodeError>(b0 + b1 + b2 + b3 + b4 + b5 + b6 + b7 + b8 + b9 + b10 + b11 + b12 + b13 + b14));
    assert(s.skip(0) == r0) by {
        assert(s =~= r0);
        assert(s.skip(0) =~= s);
    }
    lemma_skip_past(s, (0) as int, b0, r1);
    lemma_skip_past(s, (b0.len()) as int, b1, r2);
    lemma_skip_past(s, (b0.len() + b1.len()) as int, b2, r3);
    lemma_skip_past(s, (b0.len() + b1.len() + b2.len()) as int, b3, r4);
    lemma_skip_past(s, (b0.len() + b1.len() + b2.len() + b3.len()) as int, b4, r5);
    lemma_skip_past(s, (b0.len() + b1.len() + b2.len() + b3.len() + b4.len()) as int, b5, r6);
    lemma_skip_past(s, (b0.len() + b1.len() + b2.len() + b3.len() + b4.len() + b5.len()) as int, b6, r7);
    lemma_skip_past(s, (b0.len() + b1.len() + b2.len() + b3.len() + b4.len() + b5.len() + b6.len()) as int, b7, r8);
    lemma_skip_past(s, (b0.len() + b1.len() + b2.len() + b3.len() + b4.len() + b5.len() + b6.len() + b7.len()) as int, b8, r9);
    lemma_skip_past(s, (b0.len() + b1.len() + b2.len() + b3.len() + b4.len() + b5.len() + b6.len() + b7.len() + b8.len()) as int, b9, r10);
    lemma_skip_past(s, (b0.len() + b1.len() + b2.len() + b3.len() + b4.len() + b5.len() + b6.len() + b7.len() + b8.len() + b9.len()) as int, b10, r11);
    lemma_skip_past(s, (b0.len() + b1.len() + b2.len() + b3.len() + b4.len() + b5.len() + b6.len() + b7.len() + b8.len() + b9.len() + b10.len()) as int, b11, r12);
    lemma_skip_past(s, (b0.len() + b1.len() + b2.len() + b3.len() + b4.len() + b5.len() + b6.len() + b7.len() + b8.len() + b9.len() + b10.len() + b11.len()) as int, b12, r13);
    lemma_skip_past(s, (b0.len() + b1.len() + b2.len() + b3.len() + b4.len() + b5.len() + b6.len() + b7.len() + b8.len() + b9.len() + b10.len() + b11.len() + b12.len()) as int, b13, r14);
    assert(T0::decoding(c, k, s) == Ok::<(T0::V, nat, nat), DecodeError>((v.0.model(), b0.len(), k))) by {
        assert(s =~= r0);
        assert(T0::decoding(c, k, b0 + r1) == Ok::<(T0::V, nat, nat), DecodeError>((v.0.model(), b0.len(), k)));
    }
    assert(T1::decoding(c, k, s.skip((b0.len()) as int)) == Ok::<(T1::V, nat, nat), DecodeError>((v.1.model(), b1.len(), k))) by {
        assert(T1::decoding(c, k, b1 + r2) == Ok::<(T1::V, nat, nat), DecodeError>((v.1.model(), b1.len(), k)));
    }
    assert(T2::decoding(c, k, s.skip((b0.len() + b1.len()) as int)) == Ok::<(T2::V, nat, nat), DecodeError>((v.2.model(), b2.len(), k))) by {
        assert(T2::decoding(c, k, b2 + r3) == Ok::<(T2::V, nat, nat), DecodeError>((v.2.model(), b2.len(), k)));
    }
    assert(T3::decoding(c, k, s.skip((b0.len() + b1.len() + b2.len()) as int)) == Ok::<(T3::V, nat, nat), DecodeError>((v.3.model(), b3.len(), k))) by {
        assert(T3::decoding(c, k, b3 + r4) == Ok::<(T3::V, nat, nat), DecodeError>((v.3.model(), b3.len(), k)));
    }
    assert(T4::decoding(c, k, s.skip((b0.len() + b1.len() + b2.len() + b3.len()) as int)) == Ok::<(T4::V, nat, nat), DecodeError>((v.4.model(), b4.len(), k))) by {
        assert(T4::decoding(c, k, b4 + r5) == Ok::<(T4::V, nat, nat), DecodeError>((v.4.model(), b4.len(), k)));
    }
    assert(T5::decoding(c, k, s.skip((b0.len() + b1.len() + b2.len() + b3.len() + b4.len()) as int)) == Ok::<(T5::V, nat, nat), DecodeError>((v.5.model(), b5.len(), k))) by {
        assert(T5::decoding(c, k, b5 + r6) == Ok::<(T5::V, nat, nat), DecodeError>((v.5.model(), b5.len(), k)));
    }
    assert(T6::decoding(c, k, s.skip((b0.len() + b1.len() + b2.len() + b3.len() + b4.len() + b5.len()) as int)) == Ok::<(T6::V, nat, nat), DecodeError>((v.6.model(), b6.len(), k))) by {
        assert(T6::decoding(c, k, b6 + r7) == Ok::<(T6::V, nat, nat), DecodeError>((v.6.model(), b6.len(), k)));
    }
    assert(T7::decoding(c, k, s.skip((b0.len() + b1.len() + b2.len() + b3.len() + b4.len() + b5.len() + b6.len()) as int)) == Ok::<(T7::V, nat, nat), DecodeError>((v.7.model(), b7.len(), k))) by {
        assert(T7::decoding(c, k, b7 + r8) == Ok::<(T7::V, nat, nat), DecodeError>((v.7.model(), b7.len(), k)));
    }
    assert(T8::decoding(c, k, s.skip((b0.len() + b1.len() + b2.len() + b3.len() + b4.len() + b5.len() + b6.len() + b7.len()) as int)) == Ok::<(T8::V, nat, nat), DecodeError>((v.8.model(), b8.len(), k))) by {
        assert(T8::decoding(c, k, b8 + r9) == Ok::<(T8::V, nat, nat), DecodeError>((v.8.model(), b8.len(), k)));
    }
    assert(T9::decoding(c, k, s.skip((b0.len() + b1.len() + b2.len() + b3.len() + b4.len() + b5.len() + b6.len() + b7.len() + b8.len()) as int)) == Ok::<(T9::V, nat, nat), DecodeError>((v.9.model(), b9.len(), k))) by {
        assert(T9::decoding(c, k, b9 + r10) == Ok::<(T9::V, nat, nat), DecodeError>((v.9.model(), b9.len(), k)));
    }
    assert(T10::decoding(c, k, s.skip((b0.len() + b1.len() + b2.len() + b3.len() + b4.len() + b5.len() + b6.len() + b7.len() + b8.len() + b9.len()) as int)) == Ok::<(T10::V, nat, nat), DecodeError>((v.10.model(), b10.len(), k))) by {
        assert(T10::decoding(c, k, b10 + r11) == Ok::<(T10::V, nat, nat), DecodeError>((v.10.model(), b10.len(), k)));
    }
    assert(T11::decoding(c, k, s.skip((b0.len() + b1.len() + b2.len() + b3.len() + b4.len() + b5.len() + b6.len() + b7.len() + b8.len() + b9.len() + b10.len()) as int)) == Ok::<(T11::V, nat, nat), DecodeError>((v.11.model(), b11.len(), k))) by {
        assert(T11::decoding(c, k, b11 + r12) == Ok::<(T11::V, nat, nat), DecodeError>((v.11.model(), b11.len(), k)));
    }
    assert(T12::decoding(c, k, s.skip((b0.len() + b1.len() + b2.len() + b3.len() + b4.len() + b5.len() + b6.len() + b7.len() + b8.len() + b9.len() + b10.len() + b11.len()) as int)) == Ok::<(T12::V, nat, nat), DecodeError>((v.12.model(), b12.len(), k))) by {
        assert(T12::decoding(c, k, b12 + r13) == Ok::<(T12::V, nat, nat), DecodeError>((v.12.model(), b12.len(), k)));
    }
    assert(T13::decoding(c, k, s.skip((b0.len() + b1.len() + b2.len() + b3.len() + b4.len() + b5.len() + b6.len() + b7.len() + b8.len() + b9.len() + b10.len() + b11.len() + b12.len()) as int)) == Ok::<(T13::V, nat, nat), DecodeError>((v.13.model(), b13.len(), k))) by {
        assert(T13::decoding(c, k, b13 + r14) == Ok::<(T13::V, nat, nat), DecodeError>((v.13.model(), b13.len(), k)));
    }
    assert(T14::decoding(c, k, s.skip((b0.len() + b1.len() + b2.len() + b3.len() + b4.len() + b5.len() + b6.len() + b7.len() + b8.len() + b9.len() + b10.len() + b11.len() + b12.len() + b13.len()) as int)) == Ok::<(T14::V, nat, nat), DecodeError>((v.14.model(), b14.len(), k))) by {
        assert(T14::decoding(c, k, b14 + r15) == Ok::<(T14::V, nat, nat), DecodeError>((v.14.model(), b14.len(), k)));
    }
    assert((b0 + b1 + b2 + b3 + b4 + b5 + b6 + b7 + b8 + b9 + b10 + b11 + b12 + b13 + b14).len() == b0.len() + b1.len() + b2.len() + b3.len() + b4.len() + b5.len() + b6.len() + b7.len() + b8.len() + b9.len() + b10.len() + b11.len() + b12.len() + b13.len() + b14.len());
}

/// A tuple of sixteen values decodes from its own bytes, followed by anything, whenever each of them does.
#[verifier::rlimit(40)]
#[verifier::spinoff_prover]
pub proof fn lemma_tuple16_round_trip<T0: Encode + Decode<()>, T1: Encode + Decode<()>, T2: Encode + Decode<()>, T3: Encode + Decode<()>, T4: Encode + Decode<()>, T5: Encode + Decode<()>, T6: Encode + Decode<()>, T7: Encode + Decode<()>, T8: Encode + Decode<()>, T9: Encode + Decode<()>, T10: Encode + Decode<()>, T11: Encode + Decode<()>, T12: Encode + Decode<()>, T13: Encode + Decode<()>, T14: Encode + Decode<()>, T15: Encode + Decode<()>>(v: (T0, T1, T2, T3, T4, T5, T6, T7, T8, T9, T10, T11, T12, T13, T14, T15), c: Configuration, k: nat, rest: Seq<u8>)
    requires
        round_trips(v.0, c, k),
        round_trips(v.1, c, k),
        round_trips(v.2, c, k),
        round_trips(v.3, c, k),
        round_trips(v.4, c, k),
        round_trips(v.5, c, k),
        round_trips(v.6, c, k),
        round_trips(v.7, c, k),
        round_trips(v.8, c, k),
        round_trips(v.9, c, k),
        round_trips(v.10, c, k),
        round_trips(v.11, c, k),
        round_trips(v.12, c, k),
        round_trips(v.13, c, k),
        round_trips(v.14, c, k),
        round_trips(v.15, c, k),
    ensures
        v.encoding(c) matches Ok(b) && <(T0, T1, T2, T3, T4, T5, T6, T7, T8, T9, T10, T11, T12, T13, T14, T15) as Decode<()>>::decoding(c, k, b + rest) == Ok::<
            ((T0::V, T1::V, T2::V, T3::V, T4::V, T5::V, T6::V, T7::V, T8::V, T9::V, T10::V, T11::V, T12::V, T13::V, T14::V, T15::V), nat, nat),
            DecodeError,
        >((v.model(), b.len(), k)),
{
    let b0 = v.0.encoding(c)->Ok_0;
    let b1 = v.1.encoding(c)->Ok_0;
    let b2 = v.2.encoding(c)->Ok_0;
    let b3 = v.3.encoding(c)->Ok_0;
    let b4 = v.4.encoding(c)->Ok_0;
    let b5 = v.5.encoding(c)->Ok_0;
    let b6 = v.6.encoding(c)->Ok_0;
    let b7 = v.7.encoding(c)->Ok_0;
    let b8 = v.8.encoding(c)->Ok_0;
    let b9 = v.9.encoding(c)->Ok_0;
    let b10 = v.10.encoding(c)->Ok_0;
    let b11 = v.11.encoding(c)->Ok_0;
    let b12 = v.12.encoding(c)->Ok_0;
    let b13 = v.13.encoding(c)->Ok_0;
    let b14 = v.14.encoding(c)->Ok_0;
    let b15 = v.15.encoding(c)->Ok_0;
    let r16 = rest;
    let r15 = b15 + r16;
    let r14 = b14 + r15;
    let r13 = b13 + r14;
    let r12 = b12 + r13;
    let r11 = b11 + r12;
    let r10 = b10 + r11;
    let r9 = b9 + r10;
    let r8 = b8 + r9;
    let r7 = b7 + r8;
    let r6 = b6 + r7;
    let r5 = b5 + r6;
    let r4 = b4 + r5;
    let r3 = b3 + r4;
    let r2 = b2 + r3;
    let r1 = b1 + r2;
    let r0 = b0 + r1;
    let s = b0 + b1 + b2 + b3 + b4 + b5 + b6 + b7 + b8 + b9 + b10 + b11 + b12 + b13 + b14 + b15 + rest;
    assert(v.encoding(c) == Ok::<Seq<u8>, EncodeError>(b0 + b1 + b2 + b3 + b4 + b5 + b6 + b7 + b8 + b9 + b10 + b11 + b12 + b13 + b14 + b15));
    assert(s.skip(0) == r0) by {
        assert(s =~= r0);
        assert(s.skip(0) =~= s);
    }
    lemma_skip_past(s, (0) as int, b0, r1);
    lemma_skip_past(s, (b0.len()) as int, b1, r2);
    lemma_skip_past(s, (b0.len() + b1.len()) as int, b2, r3);
    lemma_skip_past(s, (b0.len() + b1.len() + b2.len()) as int, b3, r4);
    lemma_skip_past(s, (b0.len() + b1.len() + b2.len() + b3.len()) as int, b4, r5);
    lemma_skip_past(s, (b0.len() + b1.len() + b2.len() + b3.len() + b4.len()) as int, b5, r6);
    lemma_skip_past(s, (b0.len() + b1.len() + b2.len() + b3.len() + b4.len() + b5.len()) as int, b6, r7);
    lemma_skip_past(s, (b0.len() + b1.len() + b2.len() + b3.len() + b4.len() + b5.len() + b6.len()) as int, b7, r8);
    lemma_skip_past(s, (b0.len() + b1.len() + b2.len() + b3.len() + b4.len() + b5.len() + b6.len() + b7.len()) as int, b8, r9);
    lemma_skip_past(s, (b0.len() + b1.len() + b2.len() + b3.len() + b4.len() + b5.len() + b6.len() + b7.len() + b8.len()) as int, b9, r10);
    lemma_skip_past(s, (b0.len() + b1.len() + b2.len() + b3.len() + b4.len() + b5.len() + b6.len() + b7.len() + b8.len() + b9.len()) as int, b10, r11);
    lemma_skip_past(s, (b0.len() + b1.len() + b2.len() + b3.len() + b4.len() + b5.len() + b6.len() + b7.len() + b8.len() + b9.len() + b10.len()) as int, b11, r12);
    lemma_skip_past(s, (b0.len() + b1.len() + b2.len() + b3.len() + b4.len() + b5.len() + b6.len() + b7.len() + b8.len() + b9.len() + b10.len() + b11.len()) as int, b12, r13);
    lemma_skip_past(s, (b0.len() + b1.len() + b2.len() + b3.len() + b4.len() + b5.len() + b6.len() + b7.len() + b8.len() + b9.len() + b10.len() + b11.len() + b12.len()) as int, b13, r14);
    lemma_skip_past(s, (b0.len() + b1.len() + b2.len() + b3.len() + b4.len() + b5.len() + b6.len() + b7.len() + b8.len() + b9.len() + b10.len() + b11.len() + b12.len() + b13.len()) as int, b14, r15);
    assert(T0::decoding(c, k, s) == Ok::<(T0::V, nat, nat), DecodeError>((v.0.model(), b0.len(), k))) by {
        assert(s =~= r0);
        assert(T0::decoding(c, k, b0 + r1) == Ok::<(T0::V, nat, nat), DecodeError>((v.0.model(), b0.len(), k)));
    }
    assert(T1::decoding(c, k, s.skip((b0.len()) as int)) == Ok::<(T1::V, nat, nat), DecodeError>((v.1.model(), b1.len(), k))) by {
        assert(T1::decoding(c, k, b1 + r2) == Ok::<(T1::V, nat, nat), DecodeError>((v.1.model(), b1.len(), k)));
    }
    assert(T2::decoding(c, k, s.skip((b0.len() + b1.len()) as int)) == Ok::<(T2::V, nat, nat), DecodeError>((v.2.model(), b2.len(), k))) by {
        assert(T2::decoding(c, k, b2 + r3) == Ok::<(T2::V, nat, nat), DecodeError>((v.2.model(), b2.len(), k)));
    }
    assert(T3::decoding(c, k, s.skip((b0.len() + b1.len() + b2.len()) as int)) == Ok::<(T3::V, nat, nat), DecodeError>((v.3.model(), b3.len(), k))) by {
        assert(T3::decoding(c, k, b3 + r4) == Ok::<(T3::V, nat, nat), DecodeError>((v.3.model(), b3.len(), k)));
    }
    assert(T4::decoding(c, k, s.skip((b0.len() + b1.len() + b2.len() + b3.len()) as int)) == Ok::<(T4::V, nat, nat), DecodeError>((v.4.model(), b4.len(), k))) by {
        assert(T4::decoding(c, k, b4 + r5) == Ok::<(T4::V, nat, nat), DecodeError>((v.4.model(), b4.len(), k)));
    }
    assert(T5::decoding(c, k, s.skip((b0.len() + b1.len() + b2.len() + b3.len() + b4.len()) as int)) == Ok::<(T5::V, nat, nat), DecodeError>((v.5.model(), b5.len(), k))) by {
        assert(T5::decoding(c, k, b5 + r6) == Ok::<(T5::V, nat, nat), DecodeError>((v.5.model(), b5.len(), k)));
    }
    assert(T6::decoding(c, k, s.skip((b0.len() + b1.len() + b2.len() + b3.len() + b4.len() + b5.len()) as int)) == Ok::<(T6::V, nat, nat), DecodeError>((v.6.model(), b6.len(), k))) by {
        assert(T6::decoding(c, k, b6 + r7) == Ok::<(T6::V, nat, nat), DecodeError>((v.6.model(), b6.len(), k)));
    }
    assert(T7::decoding(c, k, s.skip((b0.len() + b1.len() + b2.len() + b3.len() + b4.len() + b5.len() + b6.len()) as int)) == Ok::<(T7::V, nat, nat), DecodeError>((v.7.model(), b7.len(), k))) by {
        assert(T7::decoding(c, k, b7 + r8) == Ok::<(T7::V, nat, nat), DecodeError>((v.7.model(), b7.len(), k)));
    }
    assert(T8::decoding(c, k, s.skip((b0.len() + b1.len() + b2.len() + b3.len() + b4.len() + b5.len() + b6.len() + b7.len()) as int)) == Ok::<(T8::V, nat, nat), DecodeError>((v.8.model(), b8.len(), k))) by {
        assert(T8::decoding(c, k, b8 + r9) == Ok::<(T8::V, nat, nat), DecodeError>((v.8.model(), b8.len(), k)));
    }
    assert(T9::decoding(c, k, s.skip((b0.len() + b1.len() + b2.len() + b3.len() + b4.len() + b5.len() + b6.len() + b7.len() + b8.len()) as int)) == Ok::<(T9::V, nat, nat), DecodeError>((v.9.model(), b9.len(), k))) by {
        assert(T9::decoding(c, k, b9 + r10) == Ok::<(T9::V, nat, nat), DecodeError>((v.9.model(), b9.len(), k)));
    }
    assert(T10::decoding(c, k, s.skip((b0.len() + b1.len() + b2.len() + b3.len() + b4.len() + b5.len() + b6.len() + b7.len() + b8.len() + b9.len()) as int)) == Ok::<(T10::V, nat, nat), DecodeError>((v.10.model(), b10.len(), k))) by {
        assert(T10::decoding(c, k, b10 + r11) == Ok::<(T10::V, nat, nat), DecodeError>((v.10.model(), b10.len(), k)));
    }
    assert(T11::decoding(c, k, s.skip((b0.len() + b1.len() + b2.len() + b3.len() + b4.len() + b5.len() + b6.len() + b7.len() + b8.len() + b9.len() + b10.len()) as int)) == Ok::<(T11::V, nat, nat), DecodeError>((v.11.model(), b11.len(), k))) by {
        assert(T11::decoding(c, k, b11 + r12) == Ok::<(T11::V, nat, nat), DecodeError>((v.11.model(), b11.len(), k)));
    }
    assert(T12::decoding(c, k, s.skip((b0.len() + b1.len() + b2.len() + b3.len() + b4.len() + b5.len() + b6.len() + b7.len() + b8.len() + b9.len() + b10.len() + b11.len()) as int)) == Ok::<(T12::V, nat, nat), DecodeError>((v.12.model(), b12.len(), k))) by {
        assert(T12::decoding(c, k, b12 + r13) == Ok::<(T12::V, nat, nat), DecodeError>((v.12.model(), b12.len(), k)));
    }
    assert(T13::decoding(c, k, s.skip((b0.len() + b1.len() + b2.len() + b3.len() + b4.len() + b5.len() + b6.len() + b7.len() + b8.len() + b9.len() + b10.len() + b11.len() + b12.len()) as int)) == Ok::<(T13::V, nat, nat), DecodeError>((v.13.model(), b13.len(), k))) by {
        assert(T13::decoding(c, k, b13 + r14) == Ok::<(T13::V, nat, nat), DecodeError>((v.13.model(), b13.len(), k)));
    }
    assert(T14::decoding(c, k, s.skip((b0.len() + b1.len() + b2.len() + b3.len() + b4.len() + b5.len() + b6.len() + b7.len() + b8.len() + b9.len() + b10.len() + b11.len() + b12.len() + b13.len()) as int)) == Ok::<(T14::V, nat, nat), DecodeError>((v.14.model(), b14.len(), k))) by {
        assert(T14::decoding(c, k, b14 + r15) == Ok::<(T14::V, nat, nat), DecodeError>((v.14.model(), b14.len(), k)));
    }
    assert(T15::decoding(c, k, s.skip((b0.len() + b1.len() + b2.len() + b3.len() + b4.len() + b5.len() + b6.len() + b7.len() + b8.len() + b9.len() + b10.len() + b11.len() + b12.len() + b13.len() + b14.len()) as int)) == Ok::<(T15::V, nat, nat), DecodeError>((v.15.model(), b15.len(), k))) by {
        assert(T15::decoding(c, k, b15 + r16) == Ok::<(T15::V, nat, nat), DecodeError>((v.15.model(), b15.len(), k)));
    }
    assert((b0 + b1 + b2 + b3 + b4 + b5 + b6 + b7 + b8 + b9 + b10 + b11 + b12 + b13 + b14 + b15).len() == b0.len() + b1.len() + b2.len() + b3.len() + b4.len() + b5.len() + b6.len() + b7.len() + b8.len() + b9.len() + b10.len() + b11.len() + b12.len() + b13.len() + b14.len() + b15.len());
}

} // verus!
