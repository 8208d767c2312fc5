//! Encoding of tuples: the fields one after the other.
use super::{emitted, lemma_emitted_then, Encode, Encoder};
use crate::config::Configuration;
use crate::error::EncodeError;
use vstd::prelude::*;

verus! {

/// Encode `x` after the bytes `done`, which took the encoder from `e0` to where it stands.
fn encode_next<En: Encoder, T: Encode>(encoder: &mut En, x: &T, Ghost(e0): Ghost<En>, Ghost(done): Ghost<Seq<u8>>) -> (r: Result<(), EncodeError>)
    requires
        emitted(e0, *old(encoder), done, Ok(())),
    ensures
        final(encoder).settings() == e0.settings(),
        match x.encoding(e0.settings()) {
            Ok(b) => emitted(e0, *final(encoder), done + b, r),
            Err(e) => r is Err,
        },
{
    let ghost e1 = *encoder;
    let r = x.encode(encoder);
    proof {
        if let Ok(b) = x.encoding(e0.settings()) {
            lemma_emitted_then(e0, e1, *encoder, done, b, Ok(()), r);
        }
    }
    r
}

/// Nothing written takes an encoder nowhere.
proof fn lemma_emitted_nothing<En: Encoder>(e0: En)
    ensures
        emitted(e0, e0, Seq::empty(), Ok(())),
{
    e0.lemma_room_empty();
    assert(e0.written() + Seq::<u8>::empty() =~= e0.written());
}

impl<T0> Encode for (T0,)
where
    T0: Encode,
{
    open spec fn encoding(&self, c: Configuration) -> Result<Seq<u8>, EncodeError> {
        match self.0.encoding(c) {
            Ok(b0) => Ok(b0),
            Err(e) => Err(e),
        }
    }

    fn encode<E: Encoder>(&self, encoder: &mut E) -> (r: Result<(), EncodeError>) {
        let ghost c = encoder.settings();
        let ghost e0 = *encoder;
        proof {
            lemma_emitted_nothing(e0);
        }
        let ghost d0 = Seq::<u8>::empty();
        let r0 = encode_next(encoder, &self.0, Ghost(e0), Ghost(d0));
        if r0.is_err() {
            proof {
                if let Ok(t) = self.encoding(c) {
                    if e0.room(t.len()) {
                        e0.lemma_room_prefix(t.len(), (d0 + self.0.encoding(c)->Ok_0).len());
                    }
                }
            }
            return r0;
        }
        let ghost d1 = d0 + self.0.encoding(c)->Ok_0;
        proof {
            assert(d1 =~= self.0.encoding(c)->Ok_0);
        }
        r0
    }
}

impl<T0, T1> Encode for (T0, T1)
where
    T0: Encode,
    T1: Encode,
{
    open spec fn encoding(&self, c: Configuration) -> Result<Seq<u8>, EncodeError> {
        match self.0.encoding(c) {
            Ok(b0) => match self.1.encoding(c) {
                Ok(b1) => Ok(b0 + b1),
                Err(e) => Err(e),
            },
            Err(e) => Err(e),
        }
    }

    fn encode<E: Encoder>(&self, encoder: &mut E) -> (r: Result<(), EncodeError>) {
        let ghost c = encoder.settings();
        let ghost e0 = *encoder;
        proof {
            lemma_emitted_nothing(e0);
        }
        let ghost d0 = Seq::<u8>::empty();
        let r0 = encode_next(encoder, &self.0, Ghost(e0), Ghost(d0));
        if r0.is_err() {
            proof {
                if let Ok(t) = self.encoding(c) {
                    if e0.room(t.len()) {
                        e0.lemma_room_prefix(t.len(), (d0 + self.0.encoding(c)->Ok_0).len());
                    }
                }
            }
            return r0;
        }
        let ghost d1 = d0 + self.0.encoding(c)->Ok_0;
        let r1 = encode_next(encoder, &self.1, Ghost(e0), Ghost(d1));
        if r1.is_err() {
            proof {
                if let Ok(t) = self.encoding(c) {
                    if e0.room(t.len()) {
                        e0.lemma_room_prefix(t.len(), (d1 + self.1.encoding(c)->Ok_0).len());
                    }
                }
            }
            return r1;
        }
        let ghost d2 = d1 + self.1.encoding(c)->Ok_0;
        proof {
            assert(d2 =~= self.0.encoding(c)->Ok_0 + self.1.encoding(c)->Ok_0);
        }
        r1
    }
}

impl<T0, T1, T2> Encode for (T0, T1, T2)
where
    T0: Encode,
    T1: Encode,
    T2: Encode,
{
    open spec fn encoding(&self, c: Configuration) -> Result<Seq<u8>, EncodeError> {
        match self.0.encoding(c) {
            Ok(b0) => match self.1.encoding(c) {
                Ok(b1) => match self.2.encoding(c) {
                    Ok(b2) => Ok(b0 + b1 + b2),
                    Err(e) => Err(e),
                },
                Err(e) => Err(e),
            },
            Err(e) => Err(e),
        }
    }

    fn encode<E: Encoder>(&self, encoder: &mut E) -> (r: Result<(), EncodeError>) {
        let ghost c = encoder.settings();
        let ghost e0 = *encoder;
        proof {
            lemma_emitted_nothing(e0);
        }
        let ghost d0 = Seq::<u8>::empty();
        let r0 = encode_next(encoder, &self.0, Ghost(e0), Ghost(d0));
        if r0.is_err() {
            proof {
                if let Ok(t) = self.encoding(c) {
                    if e0.room(t.len()) {
                        e0.lemma_room_prefix(t.len(), (d0 + self.0.encoding(c)->Ok_0).len());
                    }
                }
            }
            return r0;
        }
        let ghost d1 = d0 + self.0.encoding(c)->Ok_0;
        let r1 = encode_next(encoder, &self.1, Ghost(e0), Ghost(d1));
        if r1.is_err() {
            proof {
                if let Ok(t) = self.encoding(c) {
                    if e0.room(t.len()) {
                        e0.lemma_room_prefix(t.len(), (d1 + self.1.encoding(c)->Ok_0).len());
                    }
                }
            }
            return r1;
        }
        let ghost d2 = d1 + self.1.encoding(c)->Ok_0;
        let r2 = encode_next(encoder, &self.2, Ghost(e0), Ghost(d2));
        if r2.is_err() {
            proof {
                if let Ok(t) = self.encoding(c) {
                    if e0.room(t.len()) {
                        e0.lemma_room_prefix(t.len(), (d2 + self.2.encoding(c)->Ok_0).len());
                    }
                }
            }
            return r2;
        }
        let ghost d3 = d2 + self.2.encoding(c)->Ok_0;
        proof {
            assert(d3 =~= self.0.encoding(c)->Ok_0 + self.1.encoding(c)->Ok_0 + self.2.encoding(c)->Ok_0);
        }
        r2
    }
}

impl<T0, T1, T2, T3> Encode for (T0, T1, T2, T3)
where
    T0: Encode,
    T1: Encode,
    T2: Encode,
    T3: Encode,
{
    open spec fn encoding(&self, c: Configuration) -> Result<Seq<u8>, EncodeError> {
        match self.0.encoding(c) {
            Ok(b0) => match self.1.encoding(c) {
                Ok(b1) => match self.2.encoding(c) {
                    Ok(b2) => match self.3.encoding(c) {
                        Ok(b3) => Ok(b0 + b1 + b2 + b3),
                        Err(e) => Err(e),
                    },
                    Err(e) => Err(e),
                },
                Err(e) => Err(e),
            },
            Err(e) => Err(e),
        }
    }

    fn encode<E: Encoder>(&self, encoder: &mut E) -> (r: Result<(), EncodeError>) {
        let ghost c = encoder.settings();
        let ghost e0 = *encoder;
        proof {
            lemma_emitted_nothing(e0);
        }
        let ghost d0 = Seq::<u8>::empty();
        let r0 = encode_next(encoder, &self.0, Ghost(e0), Ghost(d0));
        if r0.is_err() {
            proof {
                if let Ok(t) = self.encoding(c) {
                    if e0.room(t.len()) {
                        e0.lemma_room_prefix(t.len(), (d0 + self.0.encoding(c)->Ok_0).len());
                    }
                }
            }
            return r0;
        }
        let ghost d1 = d0 + self.0.encoding(c)->Ok_0;
        let r1 = encode_next(encoder, &self.1, Ghost(e0), Ghost(d1));
        if r1.is_err() {
            proof {
                if let Ok(t) = self.encoding(c) {
                    if e0.room(t.len()) {
                        e0.lemma_room_prefix(t.len(), (d1 + self.1.encoding(c)->Ok_0).len());
                    }
                }
            }
            return r1;
        }
        let ghost d2 = d1 + self.1.encoding(c)->Ok_0;
        let r2 = encode_next(encoder, &self.2, Ghost(e0), Ghost(d2));
        if r2.is_err() {
            proof {
                if let Ok(t) = self.encoding(c) {
                    if e0.room(t.len()) {
                        e0.lemma_room_prefix(t.len(), (d2 + self.2.encoding(c)->Ok_0).len());
                    }
                }
            }
            return r2;
        }
        let ghost d3 = d2 + self.2.encoding(c)->Ok_0;
        let r3 = encode_next(encoder, &self.3, Ghost(e0), Ghost(d3));
        if r3.is_err() {
            proof {
                if let Ok(t) = self.encoding(c) {
                    if e0.room(t.len()) {
                        e0.lemma_room_prefix(t.len(), (d3 + self.3.encoding(c)->Ok_0).len());
                    }
                }
            }
            return r3;
        }
        let ghost d4 = d3 + self.3.encoding(c)->Ok_0;
        proof {
            assert(d4 =~= self.0.encoding(c)->Ok_0 + self.1.encoding(c)->Ok_0 + self.2.encoding(c)->Ok_0 + self.3.encoding(c)->Ok_0);
        }
        r3
    }
}

impl<T0, T1, T2, T3, T4> Encode for (T0, T1, T2, T3, T4)
where
    T0: Encode,
    T1: Encode,
    T2: Encode,
    T3: Encode,
    T4: Encode,
{
    open spec fn encoding(&self, c: Configuration) -> Result<Seq<u8>, EncodeError> {
        match self.0.encoding(c) {
            Ok(b0) => match self.1.encoding(c) {
                Ok(b1) => match self.2.encoding(c) {
                    Ok(b2) => match self.3.encoding(c) {
                        Ok(b3) => match self.4.encoding(c) {
                            Ok(b4) => Ok(b0 + b1 + b2 + b3 + b4),
                            Err(e) => Err(e),
                        },
                        Err(e) => Err(e),
                    },
                    Err(e) => Err(e),
                },
                Err(e) => Err(e),
            },
            Err(e) => Err(e),
        }
    }

    fn encode<E: Encoder>(&self, encoder: &mut E) -> (r: Result<(), EncodeError>) {
        let ghost c = encoder.settings();
        let ghost e0 = *encoder;
        proof {
            lemma_emitted_nothing(e0);
        }
        let ghost d0 = Seq::<u8>::empty();
        let r0 = encode_next(encoder, &self.0, Ghost(e0), Ghost(d0));
        if r0.is_err() {
            proof {
                if let Ok(t) = self.encoding(c) {
                    if e0.room(t.len()) {
                        e0.lemma_room_prefix(t.len(), (d0 + self.0.encoding(c)->Ok_0).len());
                    }
                }
            }
            return r0;
        }
        let ghost d1 = d0 + self.0.encoding(c)->Ok_0;
        let r1 = encode_next(encoder, &self.1, Ghost(e0), Ghost(d1));
        if r1.is_err() {
            proof {
                if let Ok(t) = self.encoding(c) {
                    if e0.room(t.len()) {
                        e0.lemma_room_prefix(t.len(), (d1 + self.1.encoding(c)->Ok_0).len());
                    }
                }
            }
            return r1;
        }
        let ghost d2 = d1 + self.1.encoding(c)->Ok_0;
        let r2 = encode_next(encoder, &self.2, Ghost(e0), Ghost(d2));
        if r2.is_err() {
            proof {
                if let Ok(t) = self.encoding(c) {
                    if e0.room(t.len()) {
                        e0.lemma_room_prefix(t.len(), (d2 + self.2.encoding(c)->Ok_0).len());
                    }
                }
            }
            return r2;
        }
        let ghost d3 = d2 + self.2.encoding(c)->Ok_0;
        let r3 = encode_next(encoder, &self.3, Ghost(e0), Ghost(d3));
        if r3.is_err() {
            proof {
                if let Ok(t) = self.encoding(c) {
                    if e0.room(t.len()) {
                        e0.lemma_room_prefix(t.len(), (d3 + self.3.encoding(c)->Ok_0).len());
                    }
                }
            }
            return r3;
        }
        let ghost d4 = d3 + self.3.encoding(c)->Ok_0;
        let r4 = encode_next(encoder, &self.4, Ghost(e0), Ghost(d4));
        if r4.is_err() {
            proof {
                if let Ok(t) = self.encoding(c) {
                    if e0.room(t.len()) {
                        e0.lemma_room_prefix(t.len(), (d4 + self.4.encoding(c)->Ok_0).len());
                    }
                }
            }
            return r4;
        }
        let ghost d5 = d4 + self.4.encoding(c)->Ok_0;
        proof {
            assert(d5 =~= self.0.encoding(c)->Ok_0 + self.1.encoding(c)->Ok_0 + self.2.encoding(c)->Ok_0 + self.3.encoding(c)->Ok_0 + self.4.encoding(c)->Ok_0);
        }
        r4
    }
}

impl<T0, T1, T2, T3, T4, T5> Encode for (T0, T1, T2, T3, T4, T5)
where
    T0: Encode,
    T1: Encode,
    T2: Encode,
    T3: Encode,
    T4: Encode,
    T5: Encode,
{
    open spec fn encoding(&self, c: Configuration) -> Result<Seq<u8>, EncodeError> {
        match self.0.encoding(c) {
            Ok(b0) => match self.1.encoding(c) {
                Ok(b1) => match self.2.encoding(c) {
                    Ok(b2) => match self.3.encoding(c) {
                        Ok(b3) => match self.4.encoding(c) {
                            Ok(b4) => match self.5.encoding(c) {
                                Ok(b5) => Ok(b0 + b1 + b2 + b3 + b4 + b5),
                                Err(e) => Err(e),
                            },
                            Err(e) => Err(e),
                        },
                        Err(e) => Err(e),
                    },
                    Err(e) => Err(e),
                },
                Err(e) => Err(e),
            },
            Err(e) => Err(e),
        }
    }

    fn encode<E: Encoder>(&self, encoder: &mut E) -> (r: Result<(), EncodeError>) {
        let ghost c = encoder.settings();
        let ghost e0 = *encoder;
        proof {
            lemma_emitted_nothing(e0);
        }
        let ghost d0 = Seq::<u8>::empty();
        let r0 = encode_next(encoder, &self.0, Ghost(e0), Ghost(d0));
        if r0.is_err() {
            proof {
                if let Ok(t) = self.encoding(c) {
                    if e0.room(t.len()) {
                        e0.lemma_room_prefix(t.len(), (d0 + self.0.encoding(c)->Ok_0).len());
                    }
                }
            }
            return r0;
        }
        let ghost d1 = d0 + self.0.encoding(c)->Ok_0;
        let r1 = encode_next(encoder, &self.1, Ghost(e0), Ghost(d1));
        if r1.is_err() {
            proof {
                if let Ok(t) = self.encoding(c) {
                    if e0.room(t.len()) {
                        e0.lemma_room_prefix(t.len(), (d1 + self.1.encoding(c)->Ok_0).len());
                    }
                }
            }
            return r1;
        }
        let ghost d2 = d1 + self.1.encoding(c)->Ok_0;
        let r2 = encode_next(encoder, &self.2, Ghost(e0), Ghost(d2));
        if r2.is_err() {
            proof {
                if let Ok(t) = self.encoding(c) {
                    if e0.room(t.len()) {
                        e0.lemma_room_prefix(t.len(), (d2 + self.2.encoding(c)->Ok_0).len());
                    }
                }
            }
            return r2;
        }
        let ghost d3 = d2 + self.2.encoding(c)->Ok_0;
        let r3 = encode_next(encoder, &self.3, Ghost(e0), Ghost(d3));
        if r3.is_err() {
            proof {
                if let Ok(t) = self.encoding(c) {
                    if e0.room(t.len()) {
                        e0.lemma_room_prefix(t.len(), (d3 + self.3.encoding(c)->Ok_0).len());
                    }
                }
            }
            return r3;
        }
        let ghost d4 = d3 + self.3.encoding(c)->Ok_0;
        let r4 = encode_next(encoder, &self.4, Ghost(e0), Ghost(d4));
        if r4.is_err() {
            proof {
                if let Ok(t) = self.encoding(c) {
                    if e0.room(t.len()) {
                        e0.lemma_room_prefix(t.len(), (d4 + self.4.encoding(c)->Ok_0).len());
                    }
                }
            }
            return r4;
        }
        let ghost d5 = d4 + self.4.encoding(c)->Ok_0;
        let r5 = encode_next(encoder, &self.5, Ghost(e0), Ghost(d5));
        if r5.is_err() {
            proof {
                if let Ok(t) = self.encoding(c) {
                    if e0.room(t.len()) {
                        e0.lemma_room_prefix(t.len(), (d5 + self.5.encoding(c)->Ok_0).len());
                    }
                }
            }
            return r5;
        }
        let ghost d6 = d5 + self.5.encoding(c)->Ok_0;
        proof {
            assert(d6 =~= self.0.encoding(c)->Ok_0 + self.1.encoding(c)->Ok_0 + self.2.encoding(c)->Ok_0 + self.3.encoding(c)->Ok_0 + self.4.encoding(c)->Ok_0 + self.5.encoding(c)->Ok_0);
        }
        r5
    }
}

impl<T0, T1, T2, T3, T4, T5, T6> Encode for (T0, T1, T2, T3, T4, T5, T6)
where
    T0: Encode,
    T1: Encode,
    T2: Encode,
    T3: Encode,
    T4: Encode,
    T5: Encode,
    T6: Encode,
{
    open spec fn encoding(&self, c: Configuration) -> Result<Seq<u8>, EncodeError> {
        match self.0.encoding(c) {
            Ok(b0) => match self.1.encoding(c) {
                Ok(b1) => match self.2.encoding(c) {
                    Ok(b2) => match self.3.encoding(c) {
                        Ok(b3) => match self.4.encoding(c) {
                            Ok(b4) => match self.5.encoding(c) {
                                Ok(b5) => match self.6.encoding(c) {
                                    Ok(b6) => Ok(b0 + b1 + b2 + b3 + b4 + b5 + b6),
                                    Err(e) => Err(e),
                                },
                                Err(e) => Err(e),
                            },
                            Err(e) => Err(e),
                        },
                        Err(e) => Err(e),
                    },
                    Err(e) => Err(e),
                },
                Err(e) => Err(e),
            },
            Err(e) => Err(e),
        }
    }

    fn encode<E: Encoder>(&self, encoder: &mut E) -> (r: Result<(), EncodeError>) {
        let ghost c = encoder.settings();
        let ghost e0 = *encoder;
        proof {
            lemma_emitted_nothing(e0);
        }
        let ghost d0 = Seq::<u8>::empty();
        let r0 = encode_next(encoder, &self.0, Ghost(e0), Ghost(d0));
        if r0.is_err() {
            proof {
                if let Ok(t) = self.encoding(c) {
                    if e0.room(t.len()) {
                        e0.lemma_room_prefix(t.len(), (d0 + self.0.encoding(c)->Ok_0).len());
                    }
                }
            }
            return r0;
        }
        let ghost d1 = d0 + self.0.encoding(c)->Ok_0;
        let r1 = encode_next(encoder, &self.1, Ghost(e0), Ghost(d1));
        if r1.is_err() {
            proof {
                if let Ok(t) = self.encoding(c) {
                    if e0.room(t.len()) {
                        e0.lemma_room_prefix(t.len(), (d1 + self.1.encoding(c)->Ok_0).len());
                    }
                }
            }
            return r1;
        }
        let ghost d2 = d1 + self.1.encoding(c)->Ok_0;
        let r2 = encode_next(encoder, &self.2, Ghost(e0), Ghost(d2));
        if r2.is_err() {
            proof {
                if let Ok(t) = self.encoding(c) {
                    if e0.room(t.len()) {
                        e0.lemma_room_prefix(t.len(), (d2 + self.2.encoding(c)->Ok_0).len());
                    }
                }
            }
            return r2;
        }
        let ghost d3 = d2 + self.2.encoding(c)->Ok_0;
        let r3 = encode_next(encoder, &self.3, Ghost(e0), Ghost(d3));
        if r3.is_err() {
            proof {
                if let Ok(t) = self.encoding(c) {
                    if e0.room(t.len()) {
                        e0.lemma_room_prefix(t.len(), (d3 + self.3.encoding(c)->Ok_0).len());
                    }
                }
            }
            return r3;
        }
        let ghost d4 = d3 + self.3.encoding(c)->Ok_0;
        let r4 = encode_next(encoder, &self.4, Ghost(e0), Ghost(d4));
        if r4.is_err() {
            proof {
                if let Ok(t) = self.encoding(c) {
                    if e0.room(t.len()) {
                        e0.lemma_room_prefix(t.len(), (d4 + self.4.encoding(c)->Ok_0).len());
                    }
                }
            }
            return r4;
        }
        let ghost d5 = d4 + self.4.encoding(c)->Ok_0;
        let r5 = encode_next(encoder, &self.5, Ghost(e0), Ghost(d5));
        if r5.is_err() {
            proof {
                if let Ok(t) = self.encoding(c) {
                    if e0.room(t.len()) {
                        e0.lemma_room_prefix(t.len(), (d5 + self.5.encoding(c)->Ok_0).len());
                    }
                }
            }
            return r5;
        }
        let ghost d6 = d5 + self.5.encoding(c)->Ok_0;
        let r6 = encode_next(encoder, &self.6, Ghost(e0), Ghost(d6));
        if r6.is_err() {
            proof {
                if let Ok(t) = self.encoding(c) {
                    if e0.room(t.len()) {
                        e0.lemma_room_prefix(t.len(), (d6 + self.6.encoding(c)->Ok_0).len());
                    }
                }
            }
            return r6;
        }
        let ghost d7 = d6 + self.6.encoding(c)->Ok_0;
        proof {
            assert(d7 =~= self.0.encoding(c)->Ok_0 + self.1.encoding(c)->Ok_0 + self.2.encoding(c)->Ok_0 + self.3.encoding(c)->Ok_0 + self.4.encoding(c)->Ok_0 + self.5.encoding(c)->Ok_0 + self.6.encoding(c)->Ok_0);
        }
        r6
    }
}

impl<T0, T1, T2, T3, T4, T5, T6, T7> Encode for (T0, T1, T2, T3, T4, T5, T6, T7)
where
    T0: Encode,
    T1: Encode,
    T2: Encode,
    T3: Encode,
    T4: Encode,
    T5: Encode,
    T6: Encode,
    T7: Encode,
{
    open spec fn encoding(&self, c: Configuration) -> Result<Seq<u8>, EncodeError> {
        match self.0.encoding(c) {
            Ok(b0) => match self.1.encoding(c) {
                Ok(b1) => match self.2.encoding(c) {
                    Ok(b2) => match self.3.encoding(c) {
                        Ok(b3) => match self.4.encoding(c) {
                            Ok(b4) => match self.5.encoding(c) {
                                Ok(b5) => match self.6.encoding(c) {
                                    Ok(b6) => match self.7.encoding(c) {
                                        Ok(b7) => Ok(b0 + b1 + b2 + b3 + b4 + b5 + b6 + b7),
                                        Err(e) => Err(e),
                                    },
                                    Err(e) => Err(e),
                                },
                                Err(e) => Err(e),
                            },
                            Err(e) => Err(e),
                        },
                        Err(e) => Err(e),
                    },
                    Err(e) => Err(e),
                },
                Err(e) => Err(e),
            },
            Err(e) => Err(e),
        }
    }

    fn encode<E: Encoder>(&self, encoder: &mut E) -> (r: Result<(), EncodeError>) {
        let ghost c = encoder.settings();
        let ghost e0 = *encoder;
        proof {
            lemma_emitted_nothing(e0);
        }
        let ghost d0 = Seq::<u8>::empty();
        let r0 = encode_next(encoder, &self.0, Ghost(e0), Ghost(d0));
        if r0.is_err() {
            proof {
                if let Ok(t) = self.encoding(c) {
                    if e0.room(t.len()) {
                        e0.lemma_room_prefix(t.len(), (d0 + self.0.encoding(c)->Ok_0).len());
                    }
                }
            }
            return r0;
        }
        let ghost d1 = d0 + self.0.encoding(c)->Ok_0;
        let r1 = encode_next(encoder, &self.1, Ghost(e0), Ghost(d1));
        if r1.is_err() {
            proof {
                if let Ok(t) = self.encoding(c) {
                    if e0.room(t.len()) {
                        e0.lemma_room_prefix(t.len(), (d1 + self.1.encoding(c)->Ok_0).len());
                    }
                }
            }
            return r1;
        }
        let ghost d2 = d1 + self.1.encoding(c)->Ok_0;
        let r2 = encode_next(encoder, &self.2, Ghost(e0), Ghost(d2));
        if r2.is_err() {
            proof {
                if let Ok(t) = self.encoding(c) {
                    if e0.room(t.len()) {
                        e0.lemma_room_prefix(t.len(), (d2 + self.2.encoding(c)->Ok_0).len());
                    }
                }
            }
            return r2;
        }
        let ghost d3 = d2 + self.2.encoding(c)->Ok_0;
        let r3 = encode_next(encoder, &self.3, Ghost(e0), Ghost(d3));
        if r3.is_err() {
            proof {
                if let Ok(t) = self.encoding(c) {
                    if e0.room(t.len()) {
                        e0.lemma_room_prefix(t.len(), (d3 + self.3.encoding(c)->Ok_0).len());
                    }
                }
            }
            return r3;
        }
        let ghost d4 = d3 + self.3.encoding(c)->Ok_0;
        let r4 = encode_next(encoder, &self.4, Ghost(e0), Ghost(d4));
        if r4.is_err() {
            proof {
                if let Ok(t) = self.encoding(c) {
                    if e0.room(t.len()) {
                        e0.lemma_room_prefix(t.len(), (d4 + self.4.encoding(c)->Ok_0).len());
                    }
                }
            }
            return r4;
        }
        let ghost d5 = d4 + self.4.encoding(c)->Ok_0;
        let r5 = encode_next(encoder, &self.5, Ghost(e0), Ghost(d5));
        if r5.is_err() {
            proof {
                if let Ok(t) = self.encoding(c) {
                    if e0.room(t.len()) {
                        e0.lemma_room_prefix(t.len(), (d5 + self.5.encoding(c)->Ok_0).len());
                    }
                }
            }
            return r5;
        }
        let ghost d6 = d5 + self.5.encoding(c)->Ok_0;
        let r6 = encode_next(encoder, &self.6, Ghost(e0), Ghost(d6));
        if r6.is_err() {
            proof {
                if let Ok(t) = self.encoding(c) {
                    if e0.room(t.len()) {
                        e0.lemma_room_prefix(t.len(), (d6 + self.6.encoding(c)->Ok_0).len());
                    }
                }
            }
            return r6;
        }
        let ghost d7 = d6 + self.6.encoding(c)->Ok_0;
        let r7 = encode_next(encoder, &self.7, Ghost(e0), Ghost(d7));
        if r7.is_err() {
            proof {
                if let Ok(t) = self.encoding(c) {
                    if e0.room(t.len()) {
                        e0.lemma_room_prefix(t.len(), (d7 + self.7.encoding(c)->Ok_0).len());
                    }
                }
            }
            return r7;
        }
        let ghost d8 = d7 + self.7.encoding(c)->Ok_0;
        proof {
            assert(d8 =~= self.0.encoding(c)->Ok_0 + self.1.encoding(c)->Ok_0 + self.2.encoding(c)->Ok_0 + self.3.encoding(c)->Ok_0 + self.4.encoding(c)->Ok_0 + self.5.encoding(c)->Ok_0 + self.6.encoding(c)->Ok_0 + self.7.encoding(c)->Ok_0);
        }
        r7
    }
}

impl<T0, T1, T2, T3, T4, T5, T6, T7, T8> Encode for (T0, T1, T2, T3, T4, T5, T6, T7, T8)
where
    T0: Encode,
    T1: Encode,
    T2: Encode,
    T3: Encode,
    T4: Encode,
    T5: Encode,
    T6: Encode,
    T7: Encode,
    T8: Encode,
{
    open spec fn encoding(&self, c: Configuration) -> Result<Seq<u8>, EncodeError> {
        match self.0.encoding(c) {
            Ok(b0) => match self.1.encoding(c) {
                Ok(b1) => match self.2.encoding(c) {
                    Ok(b2) => match self.3.encoding(c) {
                        Ok(b3) => match self.4.encoding(c) {
                            Ok(b4) => match self.5.encoding(c) {
                                Ok(b5) => match self.6.encoding(c) {
                                    Ok(b6) => match self.7.encoding(c) {
                                        Ok(b7) => match self.8.encoding(c) {
                                            Ok(b8) => Ok(b0 + b1 + b2 + b3 + b4 + b5 + b6 + b7 + b8),
                                            Err(e) => Err(e),
                                        },
                                        Err(e) => Err(e),
                                    },
                                    Err(e) => Err(e),
                                },
                                Err(e) => Err(e),
                            },
                            Err(e) => Err(e),
                        },
                        Err(e) => Err(e),
                    },
                    Err(e) => Err(e),
                },
                Err(e) => Err(e),
            },
            Err(e) => Err(e),
        }
    }

    fn encode<E: Encoder>(&self, encoder: &mut E) -> (r: Result<(), EncodeError>) {
        let ghost c = encoder.settings();
        let ghost e0 = *encoder;
        proof {
            lemma_emitted_nothing(e0);
        }
        let ghost d0 = Seq::<u8>::empty();
        let r0 = encode_next(encoder, &self.0, Ghost(e0), Ghost(d0));
        if r0.is_err() {
            proof {
                if let Ok(t) = self.encoding(c) {
                    if e0.room(t.len()) {
                        e0.lemma_room_prefix(t.len(), (d0 + self.0.encoding(c)->Ok_0).len());
                    }
                }
            }
            return r0;
        }
        let ghost d1 = d0 + self.0.encoding(c)->Ok_0;
        let r1 = encode_next(encoder, &self.1, Ghost(e0), Ghost(d1));
        if r1.is_err() {
            proof {
                if let Ok(t) = self.encoding(c) {
                    if e0.room(t.len()) {
                        e0.lemma_room_prefix(t.len(), (d1 + self.1.encoding(c)->Ok_0).len());
                    }
                }
            }
            return r1;
        }
        let ghost d2 = d1 + self.1.encoding(c)->Ok_0;
        let r2 = encode_next(encoder, &self.2, Ghost(e0), Ghost(d2));
        if r2.is_err() {
            proof {
                if let Ok(t) = self.encoding(c) {
                    if e0.room(t.len()) {
                        e0.lemma_room_prefix(t.len(), (d2 + self.2.encoding(c)->Ok_0).len());
                    }
                }
            }
            return r2;
        }
        let ghost d3 = d2 + self.2.encoding(c)->Ok_0;
        let r3 = encode_next(encoder, &self.3, Ghost(e0), Ghost(d3));
        if r3.is_err() {
            proof {
                if let Ok(t) = self.encoding(c) {
                    if e0.room(t.len()) {
                        e0.lemma_room_prefix(t.len(), (d3 + self.3.encoding(c)->Ok_0).len());
                    }
                }
            }
            return r3;
        }
        let ghost d4 = d3 + self.3.encoding(c)->Ok_0;
        let r4 = encode_next(encoder, &self.4, Ghost(e0), Ghost(d4));
        if r4.is_err() {
            proof {
                if let Ok(t) = self.encoding(c) {
                    if e0.room(t.len()) {
                        e0.lemma_room_prefix(t.len(), (d4 + self.4.encoding(c)->Ok_0).len());
                    }
                }
            }
            return r4;
        }
        let ghost d5 = d4 + self.4.encoding(c)->Ok_0;
        let r5 = encode_next(encoder, &self.5, Ghost(e0), Ghost(d5));
        if r5.is_err() {
            proof {
                if let Ok(t) = self.encoding(c) {
                    if e0.room(t.len()) {
                        e0.lemma_room_prefix(t.len(), (d5 + self.5.encoding(c)->Ok_0).len());
                    }
                }
            }
            return r5;
        }
        let ghost d6 = d5 + self.5.encoding(c)->Ok_0;
        let r6 = encode_next(encoder, &self.6, Ghost(e0), Ghost(d6));
        if r6.is_err() {
            proof {
                if let Ok(t) = self.encoding(c) {
                    if e0.room(t.len()) {
                        e0.lemma_room_prefix(t.len(), (d6 + self.6.encoding(c)->Ok_0).len());
                    }
                }
            }
            return r6;
        }
        let ghost d7 = d6 + self.6.encoding(c)->Ok_0;
        let r7 = encode_next(encoder, &self.7, Ghost(e0), Ghost(d7));
        if r7.is_err() {
            proof {
                if let Ok(t) = self.encoding(c) {
                    if e0.room(t.len()) {
                        e0.lemma_room_prefix(t.len(), (d7 + self.7.encoding(c)->Ok_0).len());
                    }
                }
            }
            return r7;
        }
        let ghost d8 = d7 + self.7.encoding(c)->Ok_0;
        let r8 = encode_next(encoder, &self.8, Ghost(e0), Ghost(d8));
        if r8.is_err() {
            proof {
                if let Ok(t) = self.encoding(c) {
                    if e0.room(t.len()) {
                        e0.lemma_room_prefix(t.len(), (d8 + self.8.encoding(c)->Ok_0).len());
                    }
                }
            }
            return r8;
        }
        let ghost d9 = d8 + self.8.encoding(c)->Ok_0;
        proof {
            assert(d9 =~= self.0.encoding(c)->Ok_0 + self.1.encoding(c)->Ok_0 + self.2.encoding(c)->Ok_0 + self.3.encoding(c)->Ok_0 + self.4.encoding(c)->Ok_0 + self.5.encoding(c)->Ok_0 + self.6.encoding(c)->Ok_0 + self.7.encoding(c)->Ok_0 + self.8.encoding(c)->Ok_0);
        }
        r8
    }
}

impl<T0, T1, T2, T3, T4, T5, T6, T7, T8, T9> Encode for (T0, T1, T2, T3, T4, T5, T6, T7, T8, T9)
where
    T0: Encode,
    T1: Encode,
    T2: Encode,
    T3: Encode,
    T4: Encode,
    T5: Encode,
    T6: Encode,
    T7: Encode,
    T8: Encode,
    T9: Encode,
{
    open spec fn encoding(&self, c: Configuration) -> Result<Seq<u8>, EncodeError> {
        match self.0.encoding(c) {
            Ok(b0) => match self.1.encoding(c) {
                Ok(b1) => match self.2.encoding(c) {
                    Ok(b2) => match self.3.encoding(c) {
                        Ok(b3) => match self.4.encoding(c) {
                            Ok(b4) => match self.5.encoding(c) {
                                Ok(b5) => match self.6.encoding(c) {
                                    Ok(b6) => match self.7.encoding(c) {
                                        Ok(b7) => match self.8.encoding(c) {
                                            Ok(b8) => match self.9.encoding(c) {
                                                Ok(b9) => Ok(b0 + b1 + b2 + b3 + b4 + b5 + b6 + b7 + b8 + b9),
                                                Err(e) => Err(e),
                                            },
                                            Err(e) => Err(e),
                                        },
                                        Err(e) => Err(e),
                                    },
                                    Err(e) => Err(e),
                                },
                                Err(e) => Err(e),
                            },
                            Err(e) => Err(e),
                        },
                        Err(e) => Err(e),
                    },
                    Err(e) => Err(e),
                },
                Err(e) => Err(e),
            },
            Err(e) => Err(e),
        }
    }

    fn encode<E: Encoder>(&self, encoder: &mut E) -> (r: Result<(), EncodeError>) {
        let ghost c = encoder.settings();
        let ghost e0 = *encoder;
        proof {
            lemma_emitted_nothing(e0);
        }
        let ghost d0 = Seq::<u8>::empty();
        let r0 = encode_next(encoder, &self.0, Ghost(e0), Ghost(d0));
        if r0.is_err() {
            proof {
                if let Ok(t) = self.encoding(c) {
                    if e0.room(t.len()) {
                        e0.lemma_room_prefix(t.len(), (d0 + self.0.encoding(c)->Ok_0).len());
                    }
                }
            }
            return r0;
        }
        let ghost d1 = d0 + self.0.encoding(c)->Ok_0;
        let r1 = encode_next(encoder, &self.1, Ghost(e0), Ghost(d1));
        if r1.is_err() {
            proof {
                if let Ok(t) = self.encoding(c) {
                    if e0.room(t.len()) {
                        e0.lemma_room_prefix(t.len(), (d1 + self.1.encoding(c)->Ok_0).len());
                    }
                }
            }
            return r1;
        }
        let ghost d2 = d1 + self.1.encoding(c)->Ok_0;
        let r2 = encode_next(encoder, &self.2, Ghost(e0), Ghost(d2));
        if r2.is_err() {
            proof {
                if let Ok(t) = self.encoding(c) {
                    if e0.room(t.len()) {
                        e0.lemma_room_prefix(t.len(), (d2 + self.2.encoding(c)->Ok_0).len());
                    }
                }
            }
            return r2;
        }
        let ghost d3 = d2 + self.2.encoding(c)->Ok_0;
        let r3 = encode_next(encoder, &self.3, Ghost(e0), Ghost(d3));
        if r3.is_err() {
            proof {
                if let Ok(t) = self.encoding(c) {
                    if e0.room(t.len()) {
                        e0.lemma_room_prefix(t.len(), (d3 + self.3.encoding(c)->Ok_0).len());
                    }
                }
            }
            return r3;
        }
        let ghost d4 = d3 + self.3.encoding(c)->Ok_0;
        let r4 = encode_next(encoder, &self.4, Ghost(e0), Ghost(d4));
        if r4.is_err() {
            proof {
                if let Ok(t) = self.encoding(c) {
                    if e0.room(t.len()) {
                        e0.lemma_room_prefix(t.len(), (d4 + self.4.encoding(c)->Ok_0).len());
                    }
                }
            }
            return r4;
        }
        let ghost d5 = d4 + self.4.encoding(c)->Ok_0;
        let r5 = encode_next(encoder, &self.5, Ghost(e0), Ghost(d5));
        if r5.is_err() {
            proof {
                if let Ok(t) = self.encoding(c) {
                    if e0.room(t.len()) {
                        e0.lemma_room_prefix(t.len(), (d5 + self.5.encoding(c)->Ok_0).len());
                    }
                }
            }
            return r5;
        }
        let ghost d6 = d5 + self.5.encoding(c)->Ok_0;
        let r6 = encode_next(encoder, &self.6, Ghost(e0), Ghost(d6));
        if r6.is_err() {
            proof {
                if let Ok(t) = self.encoding(c) {
                    if e0.room(t.len()) {
                        e0.lemma_room_prefix(t.len(), (d6 + self.6.encoding(c)->Ok_0).len());
                    }
                }
            }
            return r6;
        }
        let ghost d7 = d6 + self.6.encoding(c)->Ok_0;
        let r7 = encode_next(encoder, &self.7, Ghost(e0), Ghost(d7));
        if r7.is_err() {
            proof {
                if let Ok(t) = self.encoding(c) {
                    if e0.room(t.len()) {
                        e0.lemma_room_prefix(t.len(), (d7 + self.7.encoding(c)->Ok_0).len());
                    }
                }
            }
            return r7;
        }
        let ghost d8 = d7 + self.7.encoding(c)->Ok_0;
        let r8 = encode_next(encoder, &self.8, Ghost(e0), Ghost(d8));
        if r8.is_err() {
            proof {
                if let Ok(t) = self.encoding(c) {
                    if e0.room(t.len()) {
                        e0.lemma_room_prefix(t.len(), (d8 + self.8.encoding(c)->Ok_0).len());
                    }
                }
            }
            return r8;
        }
        let ghost d9 = d8 + self.8.encoding(c)->Ok_0;
        let r9 = encode_next(encoder, &self.9, Ghost(e0), Ghost(d9));
        if r9.is_err() {
            proof {
                if let Ok(t) = self.encoding(c) {
                    if e0.room(t.len()) {
                        e0.lemma_room_prefix(t.len(), (d9 + self.9.encoding(c)->Ok_0).len());
                    }
                }
            }
            return r9;
        }
        let ghost d10 = d9 + self.9.encoding(c)->Ok_0;
        proof {
            assert(d10 =~= self.0.encoding(c)->Ok_0 + self.1.encoding(c)->Ok_0 + self.2.encoding(c)->Ok_0 + self.3.encoding(c)->Ok_0 + self.4.encoding(c)->Ok_0 + self.5.encoding(c)->Ok_0 + self.6.encoding(c)->Ok_0 + self.7.encoding(c)->Ok_0 + self.8.encoding(c)->Ok_0 + self.9.encoding(c)->Ok_0);
        }
        r9
    }
}

impl<T0, T1, T2, T3, T4, T5, T6, T7, T8, T9, T10> Encode for (T0, T1, T2, T3, T4, T5, T6, T7, T8, T9, T10)
where
    T0: Encode,
    T1: Encode,
    T2: Encode,
    T3: Encode,
    T4: Encode,
    T5: Encode,
    T6: Encode,
    T7: Encode,
    T8: Encode,
    T9: Encode,
    T10: Encode,
{
    open spec fn encoding(&self, c: Configuration) -> Result<Seq<u8>, EncodeError> {
        match self.0.encoding(c) {
            Ok(b0) => match self.1.encoding(c) {
                Ok(b1) => match self.2.encoding(c) {
                    Ok(b2) => match self.3.encoding(c) {
                        Ok(b3) => match self.4.encoding(c) {
                            Ok(b4) => match self.5.encoding(c) {
                                Ok(b5) => match self.6.encoding(c) {
                                    Ok(b6) => match self.7.encoding(c) {
                                        Ok(b7) => match self.8.encoding(c) {
                                            Ok(b8) => match self.9.encoding(c) {
                                                Ok(b9) => match self.10.encoding(c) {
                                                    Ok(b10) => Ok(b0 + b1 + b2 + b3 + b4 + b5 + b6 + b7 + b8 + b9 + b10),
                                                    Err(e) => Err(e),
                                                },
                                                Err(e) => Err(e),
                                            },
                                            Err(e) => Err(e),
                                        },
                                        Err(e) => Err(e),
                                    },
                                    Err(e) => Err(e),
                                },
                                Err(e) => Err(e),
                            },
                            Err(e) => Err(e),
                        },
                        Err(e) => Err(e),
                    },
                    Err(e) => Err(e),
                },
                Err(e) => Err(e),
            },
            Err(e) => Err(e),
        }
    }

    fn encode<E: Encoder>(&self, encoder: &mut E) -> (r: Result<(), EncodeError>) {
        let ghost c = encoder.settings();
        let ghost e0 = *encoder;
        proof {
            lemma_emitted_nothing(e0);
        }
        let ghost d0 = Seq::<u8>::empty();
        let r0 = encode_next(encoder, &self.0, Ghost(e0), Ghost(d0));
        if r0.is_err() {
            proof {
                if let Ok(t) = self.encoding(c) {
                    if e0.room(t.len()) {
                        e0.lemma_room_prefix(t.len(), (d0 + self.0.encoding(c)->Ok_0).len());
                    }
                }
            }
            return r0;
        }
        let ghost d1 = d0 + self.0.encoding(c)->Ok_0;
        let r1 = encode_next(encoder, &self.1, Ghost(e0), Ghost(d1));
        if r1.is_err() {
            proof {
                if let Ok(t) = self.encoding(c) {
                    if e0.room(t.len()) {
                        e0.lemma_room_prefix(t.len(), (d1 + self.1.encoding(c)->Ok_0).len());
                    }
                }
            }
            return r1;
        }
        let ghost d2 = d1 + self.1.encoding(c)->Ok_0;
        let r2 = encode_next(encoder, &self.2, Ghost(e0), Ghost(d2));
        if r2.is_err() {
            proof {
                if let Ok(t) = self.encoding(c) {
                    if e0.room(t.len()) {
                        e0.lemma_room_prefix(t.len(), (d2 + self.2.encoding(c)->Ok_0).len());
                    }
                }
            }
            return r2;
        }
        let ghost d3 = d2 + self.2.encoding(c)->Ok_0;
        let r3 = encode_next(encoder, &self.3, Ghost(e0), Ghost(d3));
        if r3.is_err() {
            proof {
                if let Ok(t) = self.encoding(c) {
                    if e0.room(t.len()) {
                        e0.lemma_room_prefix(t.len(), (d3 + self.3.encoding(c)->Ok_0).len());
                    }
                }
            }
            return r3;
        }
        let ghost d4 = d3 + self.3.encoding(c)->Ok_0;
        let r4 = encode_next(encoder, &self.4, Ghost(e0), Ghost(d4));
        if r4.is_err() {
            proof {
                if let Ok(t) = self.encoding(c) {
                    if e0.room(t.len()) {
                        e0.lemma_room_prefix(t.len(), (d4 + self.4.encoding(c)->Ok_0).len());
                    }
                }
            }
            return r4;
        }
        let ghost d5 = d4 + self.4.encoding(c)->Ok_0;
        let r5 = encode_next(encoder, &self.5, Ghost(e0), Ghost(d5));
        if r5.is_err() {
            proof {
                if let Ok(t) = self.encoding(c) {
                    if e0.room(t.len()) {
                        e0.lemma_room_prefix(t.len(), (d5 + self.5.encoding(c)->Ok_0).len());
                    }
                }
            }
            return r5;
        }
        let ghost d6 = d5 + self.5.encoding(c)->Ok_0;
        let r6 = encode_next(encoder, &self.6, Ghost(e0), Ghost(d6));
        if r6.is_err() {
            proof {
                if let Ok(t) = self.encoding(c) {
                    if e0.room(t.len()) {
                        e0.lemma_room_prefix(t.len(), (d6 + self.6.encoding(c)->Ok_0).len());
                    }
                }
            }
            return r6;
        }
        let ghost d7 = d6 + self.6.encoding(c)->Ok_0;
        let r7 = encode_next(encoder, &self.7, Ghost(e0), Ghost(d7));
        if r7.is_err() {
            proof {
                if let Ok(t) = self.encoding(c) {
                    if e0.room(t.len()) {
                        e0.lemma_room_prefix(t.len(), (d7 + self.7.encoding(c)->Ok_0).len());
                    }
                }
            }
            return r7;
        }
        let ghost d8 = d7 + self.7.encoding(c)->Ok_0;
        let r8 = encode_next(encoder, &self.8, Ghost(e0), Ghost(d8));
        if r8.is_err() {
            proof {
                if let Ok(t) = self.encoding(c) {
                    if e0.room(t.len()) {
                        e0.lemma_room_prefix(t.len(), (d8 + self.8.encoding(c)->Ok_0).len());
                    }
                }
            }
            return r8;
        }
        let ghost d9 = d8 + self.8.encoding(c)->Ok_0;
        let r9 = encode_next(encoder, &self.9, Ghost(e0), Ghost(d9));
        if r9.is_err() {
            proof {
                if let Ok(t) = self.encoding(c) {
                    if e0.room(t.len()) {
                        e0.lemma_room_prefix(t.len(), (d9 + self.9.encoding(c)->Ok_0).len());
                    }
                }
            }
            return r9;
        }
        let ghost d10 = d9 + self.9.encoding(c)->Ok_0;
        let r10 = encode_next(encoder, &self.10, Ghost(e0), Ghost(d10));
        if r10.is_err() {
            proof {
                if let Ok(t) = self.encoding(c) {
                    if e0.room(t.len()) {
                        e0.lemma_room_prefix(t.len(), (d10 + self.10.encoding(c)->Ok_0).len());
                    }
                }
            }
            return r10;
        }
        let ghost d11 = d10 + self.10.encoding(c)->Ok_0;
        proof {
            assert(d11 =~= self.0.encoding(c)->Ok_0 + self.1.encoding(c)->Ok_0 + self.2.encoding(c)->Ok_0 + self.3.encoding(c)->Ok_0 + self.4.encoding(c)->Ok_0 + self.5.encoding(c)->Ok_0 + self.6.encoding(c)->Ok_0 + self.7.encoding(c)->Ok_0 + self.8.encoding(c)->Ok_0 + self.9.encoding(c)->Ok_0 + self.10.encoding(c)->Ok_0);
        }
        r10
    }
}

impl<T0, T1, T2, T3, T4, T5, T6, T7, T8, T9, T10, T11> Encode for (T0, T1, T2, T3, T4, T5, T6, T7, T8, T9, T10, T11)
where
    T0: Encode,
    T1: Encode,
    T2: Encode,
    T3: Encode,
    T4: Encode,
    T5: Encode,
    T6: Encode,
    T7: Encode,
    T8: Encode,
    T9: Encode,
    T10: Encode,
    T11: Encode,
{
    open spec fn encoding(&self, c: Configuration) -> Result<Seq<u8>, EncodeError> {
        match self.0.encoding(c) {
            Ok(b0) => match self.1.encoding(c) {
                Ok(b1) => match self.2.encoding(c) {
                    Ok(b2) => match self.3.encoding(c) {
                        Ok(b3) => match self.4.encoding(c) {
                            Ok(b4) => match self.5.encoding(c) {
                                Ok(b5) => match self.6.encoding(c) {
                                    Ok(b6) => match self.7.encoding(c) {
                                        Ok(b7) => match self.8.encoding(c) {
                                            Ok(b8) => match self.9.encoding(c) {
                                                Ok(b9) => match self.10.encoding(c) {
                                                    Ok(b10) => match self.11.encoding(c) {
                                                        Ok(b11) => Ok(b0 + b1 + b2 + b3 + b4 + b5 + b6 + b7 + b8 + b9 + b10 + b11),
                                                        Err(e) => Err(e),
                                                    },
                                                    Err(e) => Err(e),
                                                },
                                                Err(e) => Err(e),
                                            },
                                            Err(e) => Err(e),
                                        },
                                        Err(e) => Err(e),
                                    },
                                    Err(e) => Err(e),
                                },
                                Err(e) => Err(e),
                            },
                            Err(e) => Err(e),
                        },
                        Err(e) => Err(e),
                    },
                    Err(e) => Err(e),
                },
                Err(e) => Err(e),
            },
            Err(e) => Err(e),
        }
    }

    fn encode<E: Encoder>(&self, encoder: &mut E) -> (r: Result<(), EncodeError>) {
        let ghost c = encoder.settings();
        let ghost e0 = *encoder;
        proof {
            lemma_emitted_nothing(e0);
        }
        let ghost d0 = Seq::<u8>::empty();
        let r0 = encode_next(encoder, &self.0, Ghost(e0), Ghost(d0));
        if r0.is_err() {
            proof {
                if let Ok(t) = self.encoding(c) {
                    if e0.room(t.len()) {
                        e0.lemma_room_prefix(t.len(), (d0 + self.0.encoding(c)->Ok_0).len());
                    }
                }
            }
            return r0;
        }
        let ghost d1 = d0 + self.0.encoding(c)->Ok_0;
        let r1 = encode_next(encoder, &self.1, Ghost(e0), Ghost(d1));
        if r1.is_err() {
            proof {
                if let Ok(t) = self.encoding(c) {
                    if e0.room(t.len()) {
                        e0.lemma_room_prefix(t.len(), (d1 + self.1.encoding(c)->Ok_0).len());
                    }
                }
            }
            return r1;
        }
        let ghost d2 = d1 + self.1.encoding(c)->Ok_0;
        let r2 = encode_next(encoder, &self.2, Ghost(e0), Ghost(d2));
        if r2.is_err() {
            proof {
                if let Ok(t) = self.encoding(c) {
                    if e0.room(t.len()) {
                        e0.lemma_room_prefix(t.len(), (d2 + self.2.encoding(c)->Ok_0).len());
                    }
                }
            }
            return r2;
        }
        let ghost d3 = d2 + self.2.encoding(c)->Ok_0;
        let r3 = encode_next(encoder, &self.3, Ghost(e0), Ghost(d3));
        if r3.is_err() {
            proof {
                if let Ok(t) = self.encoding(c) {
                    if e0.room(t.len()) {
                        e0.lemma_room_prefix(t.len(), (d3 + self.3.encoding(c)->Ok_0).len());
                    }
                }
            }
            return r3;
        }
        let ghost d4 = d3 + self.3.encoding(c)->Ok_0;
        let r4 = encode_next(encoder, &self.4, Ghost(e0), Ghost(d4));
        if r4.is_err() {
            proof {
                if let Ok(t) = self.encoding(c) {
                    if e0.room(t.len()) {
                        e0.lemma_room_prefix(t.len(), (d4 + self.4.encoding(c)->Ok_0).len());
                    }
                }
            }
            return r4;
        }
        let ghost d5 = d4 + self.4.encoding(c)->Ok_0;
        let r5 = encode_next(encoder, &self.5, Ghost(e0), Ghost(d5));
        if r5.is_err() {
            proof {
                if let Ok(t) = self.encoding(c) {
                    if e0.room(t.len()) {
                        e0.lemma_room_prefix(t.len(), (d5 + self.5.encoding(c)->Ok_0).len());
                    }
                }
            }
            return r5;
        }
        let ghost d6 = d5 + self.5.encoding(c)->Ok_0;
        let r6 = encode_next(encoder, &self.6, Ghost(e0), Ghost(d6));
        if r6.is_err() {
            proof {
                if let Ok(t) = self.encoding(c) {
                    if e0.room(t.len()) {
                        e0.lemma_room_prefix(t.len(), (d6 + self.6.encoding(c)->Ok_0).len());
                    }
                }
            }
            return r6;
        }
        let ghost d7 = d6 + self.6.encoding(c)->Ok_0;
        let r7 = encode_next(encoder, &self.7, Ghost(e0), Ghost(d7));
        if r7.is_err() {
            proof {
                if let Ok(t) = self.encoding(c) {
                    if e0.room(t.len()) {
                        e0.lemma_room_prefix(t.len(), (d7 + self.7.encoding(c)->Ok_0).len());
                    }
                }
            }
            return r7;
        }
        let ghost d8 = d7 + self.7.encoding(c)->Ok_0;
        let r8 = encode_next(encoder, &self.8, Ghost(e0), Ghost(d8));
        if r8.is_err() {
            proof {
                if let Ok(t) = self.encoding(c) {
                    if e0.room(t.len()) {
                        e0.lemma_room_prefix(t.len(), (d8 + self.8.encoding(c)->Ok_0).len());
                    }
                }
            }
            return r8;
        }
        let ghost d9 = d8 + self.8.encoding(c)->Ok_0;
        let r9 = encode_next(encoder, &self.9, Ghost(e0), Ghost(d9));
        if r9.is_err() {
            proof {
                if let Ok(t) = self.encoding(c) {
                    if e0.room(t.len()) {
                        e0.lemma_room_prefix(t.len(), (d9 + self.9.encoding(c)->Ok_0).len());
                    }
                }
            }
            return r9;
        }
        let ghost d10 = d9 + self.9.encoding(c)->Ok_0;
        let r10 = encode_next(encoder, &self.10, Ghost(e0), Ghost(d10));
        if r10.is_err() {
            proof {
                if let Ok(t) = self.encoding(c) {
                    if e0.room(t.len()) {
                        e0.lemma_room_prefix(t.len(), (d10 + self.10.encoding(c)->Ok_0).len());
                    }
                }
            }
            return r10;
        }
        let ghost d11 = d10 + self.10.encoding(c)->Ok_0;
        let r11 = encode_next(encoder, &self.11, Ghost(e0), Ghost(d11));
        if r11.is_err() {
            proof {
                if let Ok(t) = self.encoding(c) {
                    if e0.room(t.len()) {
                        e0.lemma_room_prefix(t.len(), (d11 + self.11.encoding(c)->Ok_0).len());
                    }
                }
            }
            return r11;
        }
        let ghost d12 = d11 + self.11.encoding(c)->Ok_0;
        proof {
            assert(d12 =~= self.0.encoding(c)->Ok_0 + self.1.encoding(c)->Ok_0 + self.2.encoding(c)->Ok_0 + self.3.encoding(c)->Ok_0 + self.4.encoding(c)->Ok_0 + self.5.encoding(c)->Ok_0 + self.6.encoding(c)->Ok_0 + self.7.encoding(c)->Ok_0 + self.8.encoding(c)->Ok_0 + self.9.encoding(c)->Ok_0 + self.10.encoding(c)->Ok_0 + self.11.encoding(c)->Ok_0);
        }
        r11
    }
}

impl<T0, T1, T2, T3, T4, T5, T6, T7, T8, T9, T10, T11, T12> Encode for (T0, T1, T2, T3, T4, T5, T6, T7, T8, T9, T10, T11, T12)
where
    T0: Encode,
    T1: Encode,
    T2: Encode,
    T3: Encode,
    T4: Encode,
    T5: Encode,
    T6: Encode,
    T7: Encode,
    T8: Encode,
    T9: Encode,
    T10: Encode,
    T11: Encode,
    T12: Encode,
{
    open spec fn encoding(&self, c: Configuration) -> Result<Seq<u8>, EncodeError> {
        match self.0.encoding(c) {
            Ok(b0) => match self.1.encoding(c) {
                Ok(b1) => match self.2.encoding(c) {
                    Ok(b2) => match self.3.encoding(c) {
                        Ok(b3) => match self.4.encoding(c) {
                            Ok(b4) => match self.5.encoding(c) {
                                Ok(b5) => match self.6.encoding(c) {
                                    Ok(b6) => match self.7.encoding(c) {
                                        Ok(b7) => match self.8.encoding(c) {
                                            Ok(b8) => match self.9.encoding(c) {
                                                Ok(b9) => match self.10.encoding(c) {
                                                    Ok(b10) => match self.11.encoding(c) {
                                                        Ok(b11) => match self.12.encoding(c) {
                                                            Ok(b12) => Ok(b0 + b1 + b2 + b3 + b4 + b5 + b6 + b7 + b8 + b9 + b10 + b11 + b12),
                                                            Err(e) => Err(e),
                                                        },
                                                        Err(e) => Err(e),
                                                    },
                                                    Err(e) => Err(e),
                                                },
                                                Err(e) => Err(e),
                                            },
                                            Err(e) => Err(e),
                                        },
                                        Err(e) => Err(e),
                                    },
                                    Err(e) => Err(e),
                                },
                                Err(e) => Err(e),
                            },
                            Err(e) => Err(e),
                        },
                        Err(e) => Err(e),
                    },
                    Err(e) => Err(e),
                },
                Err(e) => Err(e),
            },
            Err(e) => Err(e),
        }
    }

    fn encode<E: Encoder>(&self, encoder: &mut E) -> (r: Result<(), EncodeError>) {
        let ghost c = encoder.settings();
        let ghost e0 = *encoder;
        proof {
            lemma_emitted_nothing(e0);
        }
        let ghost d0 = Seq::<u8>::empty();
        let r0 = encode_next(encoder, &self.0, Ghost(e0), Ghost(d0));
        if r0.is_err() {
            proof {
                if let Ok(t) = self.encoding(c) {
                    if e0.room(t.len()) {
                        e0.lemma_room_prefix(t.len(), (d0 + self.0.encoding(c)->Ok_0).len());
                    }
                }
            }
            return r0;
        }
        let ghost d1 = d0 + self.0.encoding(c)->Ok_0;
        let r1 = encode_next(encoder, &self.1, Ghost(e0), Ghost(d1));
        if r1.is_err() {
            proof {
                if let Ok(t) = self.encoding(c) {
                    if e0.room(t.len()) {
                        e0.lemma_room_prefix(t.len(), (d1 + self.1.encoding(c)->Ok_0).len());
                    }
                }
            }
            return r1;
        }
        let ghost d2 = d1 + self.1.encoding(c)->Ok_0;
        let r2 = encode_next(encoder, &self.2, Ghost(e0), Ghost(d2));
        if r2.is_err() {
            proof {
                if let Ok(t) = self.encoding(c) {
                    if e0.room(t.len()) {
                        e0.lemma_room_prefix(t.len(), (d2 + self.2.encoding(c)->Ok_0).len());
                    }
                }
            }
            return r2;
        }
        let ghost d3 = d2 + self.2.encoding(c)->Ok_0;
        let r3 = encode_next(encoder, &self.3, Ghost(e0), Ghost(d3));
        if r3.is_err() {
            proof {
                if let Ok(t) = self.encoding(c) {
                    if e0.room(t.len()) {
                        e0.lemma_room_prefix(t.len(), (d3 + self.3.encoding(c)->Ok_0).len());
                    }
                }
            }
            return r3;
        }
        let ghost d4 = d3 + self.3.encoding(c)->Ok_0;
        let r4 = encode_next(encoder, &self.4, Ghost(e0), Ghost(d4));
        if r4.is_err() {
            proof {
                if let Ok(t) = self.encoding(c) {
                    if e0.room(t.len()) {
                        e0.lemma_room_prefix(t.len(), (d4 + self.4.encoding(c)->Ok_0).len());
                    }
                }
            }
            return r4;
        }
        let ghost d5 = d4 + self.4.encoding(c)->Ok_0;
        let r5 = encode_next(encoder, &self.5, Ghost(e0), Ghost(d5));
        if r5.is_err() {
            proof {
                if let Ok(t) = self.encoding(c) {
                    if e0.room(t.len()) {
                        e0.lemma_room_prefix(t.len(), (d5 + self.5.encoding(c)->Ok_0).len());
                    }
                }
            }
            return r5;
        }
        let ghost d6 = d5 + self.5.encoding(c)->Ok_0;
        let r6 = encode_next(encoder, &self.6, Ghost(e0), Ghost(d6));
        if r6.is_err() {
            proof {
                if let Ok(t) = self.encoding(c) {
                    if e0.room(t.len()) {
                        e0.lemma_room_prefix(t.len(), (d6 + self.6.encoding(c)->Ok_0).len());
                    }
                }
            }
            return r6;
        }
        let ghost d7 = d6 + self.6.encoding(c)->Ok_0;
        let r7 = encode_next(encoder, &self.7, Ghost(e0), Ghost(d7));
        if r7.is_err() {
            proof {
                if let Ok(t) = self.encoding(c) {
                    if e0.room(t.len()) {
                        e0.lemma_room_prefix(t.len(), (d7 + self.7.encoding(c)->Ok_0).len());
                    }
                }
            }
            return r7;
        }
        let ghost d8 = d7 + self.7.encoding(c)->Ok_0;
        let r8 = encode_next(encoder, &self.8, Ghost(e0), Ghost(d8));
        if r8.is_err() {
            proof {
                if let Ok(t) = self.encoding(c) {
                    if e0.room(t.len()) {
                        e0.lemma_room_prefix(t.len(), (d8 + self.8.encoding(c)->Ok_0).len());
                    }
                }
            }
            return r8;
        }
        let ghost d9 = d8 + self.8.encoding(c)->Ok_0;
        let r9 = encode_next(encoder, &self.9, Ghost(e0), Ghost(d9));
        if r9.is_err() {
            proof {
                if let Ok(t) = self.encoding(c) {
                    if e0.room(t.len()) {
                        e0.lemma_room_prefix(t.len(), (d9 + self.9.encoding(c)->Ok_0).len());
                    }
                }
            }
            return r9;
        }
        let ghost d10 = d9 + self.9.encoding(c)->Ok_0;
        let r10 = encode_next(encoder, &self.10, Ghost(e0), Ghost(d10));
        if r10.is_err() {
            proof {
                if let Ok(t) = self.encoding(c) {
                    if e0.room(t.len()) {
                        e0.lemma_room_prefix(t.len(), (d10 + self.10.encoding(c)->Ok_0).len());
                    }
                }
            }
            return r10;
        }
        let ghost d11 = d10 + self.10.encoding(c)->Ok_0;
        let r11 = encode_next(encoder, &self.11, Ghost(e0), Ghost(d11));
        if r11.is_err() {
            proof {
                if let Ok(t) = self.encoding(c) {
                    if e0.room(t.len()) {
                        e0.lemma_room_prefix(t.len(), (d11 + self.11.encoding(c)->Ok_0).len());
                    }
                }
            }
            return r11;
        }
        let ghost d12 = d11 + self.11.encoding(c)->Ok_0;
        let r12 = encode_next(encoder, &self.12, Ghost(e0), Ghost(d12));
        if r12.is_err() {
            proof {
                if let Ok(t) = self.encoding(c) {
                    if e0.room(t.len()) {
                        e0.lemma_room_prefix(t.len(), (d12 + self.12.encoding(c)->Ok_0).len());
                    }
                }
            }
            return r12;
        }
        let ghost d13 = d12 + self.12.encoding(c)->Ok_0;
        proof {
            assert(d13 =~= self.0.encoding(c)->Ok_0 + self.1.encoding(c)->Ok_0 + self.2.encoding(c)->Ok_0 + self.3.encoding(c)->Ok_0 + self.4.encoding(c)->Ok_0 + self.5.encoding(c)->Ok_0 + self.6.encoding(c)->Ok_0 + self.7.encoding(c)->Ok_0 + self.8.encoding(c)->Ok_0 + self.9.encoding(c)->Ok_0 + self.10.encoding(c)->Ok_0 + self.11.encoding(c)->Ok_0 + self.12.encoding(c)->Ok_0);
        }
        r12
    }
}

impl<T0, T1, T2, T3, T4, T5, T6, T7, T8, T9, T10, T11, T12, T13> Encode for (T0, T1, T2, T3, T4, T5, T6, T7, T8, T9, T10, T11, T12, T13)
where
    T0: Encode,
    T1: Encode,
    T2: Encode,
    T3: Encode,
    T4: Encode,
    T5: Encode,
    T6: Encode,
    T7: Encode,
    T8: Encode,
    T9: Encode,
    T10: Encode,
    T11: Encode,
    T12: Encode,
    T13: Encode,
{
    open spec fn encoding(&self, c: Configuration) -> Result<Seq<u8>, EncodeError> {
        match self.0.encoding(c) {
            Ok(b0) => match self.1.encoding(c) {
                Ok(b1) => match self.2.encoding(c) {
                    Ok(b2) => match self.3.encoding(c) {
                        Ok(b3) => match self.4.encoding(c) {
                            Ok(b4) => match self.5.encoding(c) {
                                Ok(b5) => match self.6.encoding(c) {
                                    Ok(b6) => match self.7.encoding(c) {
                                        Ok(b7) => match self.8.encoding(c) {
                                            Ok(b8) => match self.9.encoding(c) {
                                                Ok(b9) => match self.10.encoding(c) {
                                                    Ok(b10) => match self.11.encoding(c) {
                                                        Ok(b11) => match self.12.encoding(c) {
                                                            Ok(b12) => match self.13.encoding(c) {
                                                                Ok(b13) => Ok(b0 + b1 + b2 + b3 + b4 + b5 + b6 + b7 + b8 + b9 + b10 + b11 + b12 + b13),
                                                                Err(e) => Err(e),
                                                            },
                                                            Err(e) => Err(e),
                                                        },
                                                        Err(e) => Err(e),
                                                    },
                                                    Err(e) => Err(e),
                                                },
                                                Err(e) => Err(e),
                                            },
                                            Err(e) => Err(e),
                                        },
                                        Err(e) => Err(e),
                                    },
                                    Err(e) => Err(e),
                                },
                                Err(e) => Err(e),
                            },
                            Err(e) => Err(e),
                        },
                        Err(e) => Err(e),
                    },
                    Err(e) => Err(e),
                },
                Err(e) => Err(e),
            },
            Err(e) => Err(e),
        }
    }

    fn encode<E: Encoder>(&self, encoder: &mut E) -> (r: Result<(), EncodeError>) {
        let ghost c = encoder.settings();
        let ghost e0 = *encoder;
        proof {
            lemma_emitted_nothing(e0);
        }
        let ghost d0 = Seq::<u8>::empty();
        let r0 = encode_next(encoder, &self.0, Ghost(e0), Ghost(d0));
        if r0.is_err() {
            proof {
                if let Ok(t) = self.encoding(c) {
                    if e0.room(t.len()) {
                        e0.lemma_room_prefix(t.len(), (d0 + self.0.encoding(c)->Ok_0).len());
                    }
                }
            }
            return r0;
        }
        let ghost d1 = d0 + self.0.encoding(c)->Ok_0;
        let r1 = encode_next(encoder, &self.1, Ghost(e0), Ghost(d1));
        if r1.is_err() {
            proof {
                if let Ok(t) = self.encoding(c) {
                    if e0.room(t.len()) {
                        e0.lemma_room_prefix(t.len(), (d1 + self.1.encoding(c)->Ok_0).len());
                    }
                }
            }
            return r1;
        }
        let ghost d2 = d1 + self.1.encoding(c)->Ok_0;
        let r2 = encode_next(encoder, &self.2, Ghost(e0), Ghost(d2));
        if r2.is_err() {
            proof {
                if let Ok(t) = self.encoding(c) {
                    if e0.room(t.len()) {
                        e0.lemma_room_prefix(t.len(), (d2 + self.2.encoding(c)->Ok_0).len());
                    }
                }
            }
            return r2;
        }
        let ghost d3 = d2 + self.2.encoding(c)->Ok_0;
        let r3 = encode_next(encoder, &self.3, Ghost(e0), Ghost(d3));
        if r3.is_err() {
            proof {
                if let Ok(t) = self.encoding(c) {
                    if e0.room(t.len()) {
                        e0.lemma_room_prefix(t.len(), (d3 + self.3.encoding(c)->Ok_0).len());
                    }
                }
            }
            return r3;
        }
        let ghost d4 = d3 + self.3.encoding(c)->Ok_0;
        let r4 = encode_next(encoder, &self.4, Ghost(e0), Ghost(d4));
        if r4.is_err() {
            proof {
                if let Ok(t) = self.encoding(c) {
                    if e0.room(t.len()) {
                        e0.lemma_room_prefix(t.len(), (d4 + self.4.encoding(c)->Ok_0).len());
                    }
                }
            }
            return r4;
        }
        let ghost d5 = d4 + self.4.encoding(c)->Ok_0;
        let r5 = encode_next(encoder, &self.5, Ghost(e0), Ghost(d5));
        if r5.is_err() {
            proof {
                if let Ok(t) = self.encoding(c) {
                    if e0.room(t.len()) {
                        e0.lemma_room_prefix(t.len(), (d5 + self.5.encoding(c)->Ok_0).len());
                    }
                }
            }
            return r5;
        }
        let ghost d6 = d5 + self.5.encoding(c)->Ok_0;
        let r6 = encode_next(encoder, &self.6, Ghost(e0), Ghost(d6));
        if r6.is_err() {
            proof {
                if let Ok(t) = self.encoding(c) {
                    if e0.room(t.len()) {
                        e0.lemma_room_prefix(t.len(), (d6 + self.6.encoding(c)->Ok_0).len());
                    }
                }
            }
            return r6;
        }
        let ghost d7 = d6 + self.6.encoding(c)->Ok_0;
        let r7 = encode_next(encoder, &self.7, Ghost(e0), Ghost(d7));
        if r7.is_err() {
            proof {
                if let Ok(t) = self.encoding(c) {
                    if e0.room(t.len()) {
                        e0.lemma_room_prefix(t.len(), (d7 + self.7.encoding(c)->Ok_0).len());
                    }
                }
            }
            return r7;
        }
        let ghost d8 = d7 + self.7.encoding(c)->Ok_0;
        let r8 = encode_next(encoder, &self.8, Ghost(e0), Ghost(d8));
        if r8.is_err() {
            proof {
                if let Ok(t) = self.encoding(c) {
                    if e0.room(t.len()) {
                        e0.lemma_room_prefix(t.len(), (d8 + self.8.encoding(c)->Ok_0).len());
                    }
                }
            }
            return r8;
        }
        let ghost d9 = d8 + self.8.encoding(c)->Ok_0;
        let r9 = encode_next(encoder, &self.9, Ghost(e0), Ghost(d9));
        if r9.is_err() {
            proof {
                if let Ok(t) = self.encoding(c) {
                    if e0.room(t.len()) {
                        e0.lemma_room_prefix(t.len(), (d9 + self.9.encoding(c)->Ok_0).len());
                    }
                }
            }
            return r9;
        }
        let ghost d10 = d9 + self.9.encoding(c)->Ok_0;
        let r10 = encode_next(encoder, &self.10, Ghost(e0), Ghost(d10));
        if r10.is_err() {
            proof {
                if let Ok(t) = self.encoding(c) {
                    if e0.room(t.len()) {
                        e0.lemma_room_prefix(t.len(), (d10 + self.10.encoding(c)->Ok_0).len());
                    }
                }
            }
            return r10;
        }
        let ghost d11 = d10 + self.10.encoding(c)->Ok_0;
        let r11 = encode_next(encoder, &self.11, Ghost(e0), Ghost(d11));
        if r11.is_err() {
            proof {
                if let Ok(t) = self.encoding(c) {
                    if e0.room(t.len()) {
                        e0.lemma_room_prefix(t.len(), (d11 + self.11.encoding(c)->Ok_0).len());
                    }
                }
            }
            return r11;
        }
        let ghost d12 = d11 + self.11.encoding(c)->Ok_0;
        let r12 = encode_next(encoder, &self.12, Ghost(e0), Ghost(d12));
        if r12.is_err() {
            proof {
                if let Ok(t) = self.encoding(c) {
                    if e0.room(t.len()) {
                        e0.lemma_room_prefix(t.len(), (d12 + self.12.encoding(c)->Ok_0).len());
                    }
                }
            }
            return r12;
        }
        let ghost d13 = d12 + self.12.encoding(c)->Ok_0;
        let r13 = encode_next(encoder, &self.13, Ghost(e0), Ghost(d13));
        if r13.is_err() {
            proof {
                if let Ok(t) = self.encoding(c) {
                    if e0.room(t.len()) {
                        e0.lemma_room_prefix(t.len(), (d13 + self.13.encoding(c)->Ok_0).len());
                    }
                }
            }
            return r13;
        }
        let ghost d14 = d13 + self.13.encoding(c)->Ok_0;
        proof {
            assert(d14 =~= self.0.encoding(c)->Ok_0 + self.1.encoding(c)->Ok_0 + self.2.encoding(c)->Ok_0 + self.3.encoding(c)->Ok_0 + self.4.encoding(c)->Ok_0 + self.5.encoding(c)->Ok_0 + self.6.encoding(c)->Ok_0 + self.7.encoding(c)->Ok_0 + self.8.encoding(c)->Ok_0 + self.9.encoding(c)->Ok_0 + self.10.encoding(c)->Ok_0 + self.11.encoding(c)->Ok_0 + self.12.encoding(c)->Ok_0 + self.13.encoding(c)->Ok_0);
        }
        r13
    }
}

impl<T0, T1, T2, T3, T4, T5, T6, T7, T8, T9, T10, T11, T12, T13, T14> Encode for (T0, T1, T2, T3, T4, T5, T6, T7, T8, T9, T10, T11, T12, T13, T14)
where
    T0: Encode,
    T1: Encode,
    T2: Encode,
    T3: Encode,
    T4: Encode,
    T5: Encode,
    T6: Encode,
    T7: Encode,
    T8: Encode,
    T9: Encode,
    T10: Encode,
    T11: Encode,
    T12: Encode,
    T13: Encode,
    T14: Encode,
{
    open spec fn encoding(&self, c: Configuration) -> Result<Seq<u8>, EncodeError> {
        match self.0.encoding(c) {
            Ok(b0) => match self.1.encoding(c) {
                Ok(b1) => match self.2.encoding(c) {
                    Ok(b2) => match self.3.encoding(c) {
                        Ok(b3) => match self.4.encoding(c) {
                            Ok(b4) => match self.5.encoding(c) {
                                Ok(b5) => match self.6.encoding(c) {
                                    Ok(b6) => match self.7.encoding(c) {
                                        Ok(b7) => match self.8.encoding(c) {
                                            Ok(b8) => match self.9.encoding(c) {
                                                Ok(b9) => match self.10.encoding(c) {
                                                    Ok(b10) => match self.11.encoding(c) {
                                                        Ok(b11) => match self.12.encoding(c) {
                                                            Ok(b12) => match self.13.encoding(c) {
                                                                Ok(b13) => match self.14.encoding(c) {
                                                                    Ok(b14) => Ok(b0 + b1 + b2 + b3 + b4 + b5 + b6 + b7 + b8 + b9 + b10 + b11 + b12 + b13 + b14),
                                                                    Err(e) => Err(e),
                                                                },
                                                                Err(e) => Err(e),
                                                            },
                                                            Err(e) => Err(e),
                                                        },
                                                        Err(e) => Err(e),
                                                    },
                                                    Err(e) => Err(e),
                                                },
                                                Err(e) => Err(e),
                                            },
                                            Err(e) => Err(e),
                                        },
                                        Err(e) => Err(e),
                                    },
                                    Err(e) => Err(e),
                                },
                                Err(e) => Err(e),
                            },
                            Err(e) => Err(e),
                        },
                        Err(e) => Err(e),
                    },
                    Err(e) => Err(e),
                },
                Err(e) => Err(e),
            },
            Err(e) => Err(e),
        }
    }

    fn encode<E: Encoder>(&self, encoder: &mut E) -> (r: Result<(), EncodeError>) {
        let ghost c = encoder.settings();
        let ghost e0 = *encoder;
        proof {
            lemma_emitted_nothing(e0);
        }
        let ghost d0 = Seq::<u8>::empty();
        let r0 = encode_next(encoder, &self.0, Ghost(e0), Ghost(d0));
        if r0.is_err() {
            proof {
                if let Ok(t) = self.encoding(c) {
                    if e0.room(t.len()) {
                        e0.lemma_room_prefix(t.len(), (d0 + self.0.encoding(c)->Ok_0).len());
                    }
                }
            }
            return r0;
        }
        let ghost d1 = d0 + self.0.encoding(c)->Ok_0;
        let r1 = encode_next(encoder, &self.1, Ghost(e0), Ghost(d1));
        if r1.is_err() {
            proof {
                if let Ok(t) = self.encoding(c) {
                    if e0.room(t.len()) {
                        e0.lemma_room_prefix(t.len(), (d1 + self.1.encoding(c)->Ok_0).len());
                    }
                }
            }
            return r1;
        }
        let ghost d2 = d1 + self.1.encoding(c)->Ok_0;
        let r2 = encode_next(encoder, &self.2, Ghost(e0), Ghost(d2));
        if r2.is_err() {
            proof {
                if let Ok(t) = self.encoding(c) {
                    if e0.room(t.len()) {
                        e0.lemma_room_prefix(t.len(), (d2 + self.2.encoding(c)->Ok_0).len());
                    }
                }
            }
            return r2;
        }
        let ghost d3 = d2 + self.2.encoding(c)->Ok_0;
        let r3 = encode_next(encoder, &self.3, Ghost(e0), Ghost(d3));
        if r3.is_err() {
            proof {
                if let Ok(t) = self.encoding(c) {
                    if e0.room(t.len()) {
                        e0.lemma_room_prefix(t.len(), (d3 + self.3.encoding(c)->Ok_0).len());
                    }
                }
            }
            return r3;
        }
        let ghost d4 = d3 + self.3.encoding(c)->Ok_0;
        let r4 = encode_next(encoder, &self.4, Ghost(e0), Ghost(d4));
        if r4.is_err() {
            proof {
                if let Ok(t) = self.encoding(c) {
                    if e0.room(t.len()) {
                        e0.lemma_room_prefix(t.len(), (d4 + self.4.encoding(c)->Ok_0).len());
                    }
                }
            }
            return r4;
        }
        let ghost d5 = d4 + self.4.encoding(c)->Ok_0;
        let r5 = encode_next(encoder, &self.5, Ghost(e0), Ghost(d5));
        if r5.is_err() {
            proof {
                if let Ok(t) = self.encoding(c) {
                    if e0.room(t.len()) {
                        e0.lemma_room_prefix(t.len(), (d5 + self.5.encoding(c)->Ok_0).len());
                    }
                }
            }
            return r5;
        }
        let ghost d6 = d5 + self.5.encoding(c)->Ok_0;
        let r6 = encode_next(encoder, &self.6, Ghost(e0), Ghost(d6));
        if r6.is_err() {
            proof {
                if let Ok(t) = self.encoding(c) {
                    if e0.room(t.len()) {
                        e0.lemma_room_prefix(t.len(), (d6 + self.6.encoding(c)->Ok_0).len());
                    }
                }
            }
            return r6;
        }
        let ghost d7 = d6 + self.6.encoding(c)->Ok_0;
        let r7 = encode_next(encoder, &self.7, Ghost(e0), Ghost(d7));
        if r7.is_err() {
            proof {
                if let Ok(t) = self.encoding(c) {
                    if e0.room(t.len()) {
                        e0.lemma_room_prefix(t.len(), (d7 + self.7.encoding(c)->Ok_0).len());
                    }
                }
            }
            return r7;
        }
        let ghost d8 = d7 + self.7.encoding(c)->Ok_0;
        let r8 = encode_next(encoder, &self.8, Ghost(e0), Ghost(d8));
        if r8.is_err() {
            proof {
                if let Ok(t) = self.encoding(c) {
                    if e0.room(t.len()) {
                        e0.lemma_room_prefix(t.len(), (d8 + self.8.encoding(c)->Ok_0).len());
                    }
                }
            }
            return r8;
        }
        let ghost d9 = d8 + self.8.encoding(c)->Ok_0;
        let r9 = encode_next(encoder, &self.9, Ghost(e0), Ghost(d9));
        if r9.is_err() {
            proof {
                if let Ok(t) = self.encoding(c) {
                    if e0.room(t.len()) {
                        e0.lemma_room_prefix(t.len(), (d9 + self.9.encoding(c)->Ok_0).len());
                    }
                }
            }
            return r9;
        }
        let ghost d10 = d9 + self.9.encoding(c)->Ok_0;
        let r10 = encode_next(encoder, &self.10, Ghost(e0), Ghost(d10));
        if r10.is_err() {
            proof {
                if let Ok(t) = self.encoding(c) {
                    if e0.room(t.len()) {
                        e0.lemma_room_prefix(t.len(), (d10 + self.10.encoding(c)->Ok_0).len());
                    }
                }
            }
            return r10;
        }
        let ghost d11 = d10 + self.10.encoding(c)->Ok_0;
        let r11 = encode_next(encoder, &self.11, Ghost(e0), Ghost(d11));
        if r11.is_err() {
            proof {
                if let Ok(t) = self.encoding(c) {
                    if e0.room(t.len()) {
                        e0.lemma_room_prefix(t.len(), (d11 + self.11.encoding(c)->Ok_0).len());
                    }
                }
            }
            return r11;
        }
        let ghost d12 = d11 + self.11.encoding(c)->Ok_0;
        let r12 = encode_next(encoder, &self.12, Ghost(e0), Ghost(d12));
        if r12.is_err() {
            proof {
                if let Ok(t) = self.encoding(c) {
                    if e0.room(t.len()) {
                        e0.lemma_room_prefix(t.len(), (d12 + self.12.encoding(c)->Ok_0).len());
                    }
                }
            }
            return r12;
        }
        let ghost d13 = d12 + self.12.encoding(c)->Ok_0;
        let r13 = encode_next(encoder, &self.13, Ghost(e0), Ghost(d13));
        if r13.is_err() {
            proof {
                if let Ok(t) = self.encoding(c) {
                    if e0.room(t.len()) {
                        e0.lemma_room_prefix(t.len(), (d13 + self.13.encoding(c)->Ok_0).len());
                    }
                }
            }
            return r13;
        }
        let ghost d14 = d13 + self.13.encoding(c)->Ok_0;
        let r14 = encode_next(encoder, &self.14, Ghost(e0), Ghost(d14));
        if r14.is_err() {
            proof {
                if let Ok(t) = self.encoding(c) {
                    if e0.room(t.len()) {
                        e0.lemma_room_prefix(t.len(), (d14 + self.14.encoding(c)->Ok_0).len());
                    }
                }
            }
            return r14;
        }
        let ghost d15 = d14 + self.14.encoding(c)->Ok_0;
        proof {
            assert(d15 =~= self.0.encoding(c)->Ok_0 + self.1.encoding(c)->Ok_0 + self.2.encoding(c)->Ok_0 + self.3.encoding(c)->Ok_0 + self.4.encoding(c)->Ok_0 + self.5.encoding(c)->Ok_0 + self.6.encoding(c)->Ok_0 + self.7.encoding(c)->Ok_0 + self.8.encoding(c)->Ok_0 + self.9.encoding(c)->Ok_0 + self.10.encoding(c)->Ok_0 + self.11.encoding(c)->Ok_0 + self.12.encoding(c)->Ok_0 + self.13.encoding(c)->Ok_0 + self.14.encoding(c)->Ok_0);
        }
        r14
    }
}

impl<T0, T1, T2, T3, T4, T5, T6, T7, T8, T9, T10, T11, T12, T13, T14, T15> Encode for (T0, T1, T2, T3, T4, T5, T6, T7, T8, T9, T10, T11, T12, T13, T14, T15)
where
    T0: Encode,
    T1: Encode,
    T2: Encode,
    T3: Encode,
    T4: Encode,
    T5: Encode,
    T6: Encode,
    T7: Encode,
    T8: Encode,
    T9: Encode,
    T10: Encode,
    T11: Encode,
    T12: Encode,
    T13: Encode,
    T14: Encode,
    T15: Encode,
{
    open spec fn encoding(&self, c: Configuration) -> Result<Seq<u8>, EncodeError> {
        match self.0.encoding(c) {
            Ok(b0) => match self.1.encoding(c) {
                Ok(b1) => match self.2.encoding(c) {
                    Ok(b2) => match self.3.encoding(c) {
                        Ok(b3) => match self.4.encoding(c) {
                            Ok(b4) => match self.5.encoding(c) {
                                Ok(b5) => match self.6.encoding(c) {
                                    Ok(b6) => match self.7.encoding(c) {
                                        Ok(b7) => match self.8.encoding(c) {
                                            Ok(b8) => match self.9.encoding(c) {
                                                Ok(b9) => match self.10.encoding(c) {
                                                    Ok(b10) => match self.11.encoding(c) {
                                                        Ok(b11) => match self.12.encoding(c) {
                                                            Ok(b12) => match self.13.encoding(c) {
                                                                Ok(b13) => match self.14.encoding(c) {
                                                                    Ok(b14) => match self.15.encoding(c) {
                                                                        Ok(b15) => Ok(b0 + b1 + b2 + b3 + b4 + b5 + b6 + b7 + b8 + b9 + b10 + b11 + b12 + b13 + b14 + b15),
                                                                        Err(e) => Err(e),
                                                                    },
                                                                    Err(e) => Err(e),
                                                                },
                                                                Err(e) => Err(e),
                                                            },
                                                            Err(e) => Err(e),
                                                        },
                                                        Err(e) => Err(e),
                                                    },
                                                    Err(e) => Err(e),
                                                },
                                                Err(e) => Err(e),
                                            },
                                            Err(e) => Err(e),
                                        },
                                        Err(e) => Err(e),
                                    },
                                    Err(e) => Err(e),
                                },
                                Err(e) => Err(e),
                            },
                            Err(e) => Err(e),
                        },
                        Err(e) => Err(e),
                    },
                    Err(e) => Err(e),
                },
                Err(e) => Err(e),
            },
            Err(e) => Err(e),
        }
    }

    fn encode<E: Encoder>(&self, encoder: &mut E) -> (r: Result<(), EncodeError>) {
        let ghost c = encoder.settings();
        let ghost e0 = *encoder;
        proof {
            lemma_emitted_nothing(e0);
        }
        let ghost d0 = Seq::<u8>::empty();
        let r0 = encode_next(encoder, &self.0, Ghost(e0), Ghost(d0));
        if r0.is_err() {
            proof {
                if let Ok(t) = self.encoding(c) {
                    if e0.room(t.len()) {
                        e0.lemma_room_prefix(t.len(), (d0 + self.0.encoding(c)->Ok_0).len());
                    }
                }
            }
            return r0;
        }
        let ghost d1 = d0 + self.0.encoding(c)->Ok_0;
        let r1 = encode_next(encoder, &self.1, Ghost(e0), Ghost(d1));
        if r1.is_err() {
            proof {
                if let Ok(t) = self.encoding(c) {
                    if e0.room(t.len()) {
                        e0.lemma_room_prefix(t.len(), (d1 + self.1.encoding(c)->Ok_0).len());
                    }
                }
            }
            return r1;
        }
        let ghost d2 = d1 + self.1.encoding(c)->Ok_0;
        let r2 = encode_next(encoder, &self.2, Ghost(e0), Ghost(d2));
        if r2.is_err() {
            proof {
                if let Ok(t) = self.encoding(c) {
                    if e0.room(t.len()) {
                        e0.lemma_room_prefix(t.len(), (d2 + self.2.encoding(c)->Ok_0).len());
                    }
                }
            }
            return r2;
        }
        let ghost d3 = d2 + self.2.encoding(c)->Ok_0;
        let r3 = encode_next(encoder, &self.3, Ghost(e0), Ghost(d3));
        if r3.is_err() {
            proof {
                if let Ok(t) = self.encoding(c) {
                    if e0.room(t.len()) {
                        e0.lemma_room_prefix(t.len(), (d3 + self.3.encoding(c)->Ok_0).len());
                    }
                }
            }
            return r3;
        }
        let ghost d4 = d3 + self.3.encoding(c)->Ok_0;
        let r4 = encode_next(encoder, &self.4, Ghost(e0), Ghost(d4));
        if r4.is_err() {
            proof {
                if let Ok(t) = self.encoding(c) {
                    if e0.room(t.len()) {
                        e0.lemma_room_prefix(t.len(), (d4 + self.4.encoding(c)->Ok_0).len());
                    }
                }
            }
            return r4;
        }
        let ghost d5 = d4 + self.4.encoding(c)->Ok_0;
        let r5 = encode_next(encoder, &self.5, Ghost(e0), Ghost(d5));
        if r5.is_err() {
            proof {
                if let Ok(t) = self.encoding(c) {
                    if e0.room(t.len()) {
                        e0.lemma_room_prefix(t.len(), (d5 + self.5.encoding(c)->Ok_0).len());
                    }
                }
            }
            return r5;
        }
        let ghost d6 = d5 + self.5.encoding(c)->Ok_0;
        let r6 = encode_next(encoder, &self.6, Ghost(e0), Ghost(d6));
        if r6.is_err() {
            proof {
                if let Ok(t) = self.encoding(c) {
                    if e0.room(t.len()) {
                        e0.lemma_room_prefix(t.len(), (d6 + self.6.encoding(c)->Ok_0).len());
                    }
                }
            }
            return r6;
        }
        let ghost d7 = d6 + self.6.encoding(c)->Ok_0;
        let r7 = encode_next(encoder, &self.7, Ghost(e0), Ghost(d7));
        if r7.is_err() {
            proof {
                if let Ok(t) = self.encoding(c) {
                    if e0.room(t.len()) {
                        e0.lemma_room_prefix(t.len(), (d7 + self.7.encoding(c)->Ok_0).len());
                    }
                }
            }
            return r7;
        }
        let ghost d8 = d7 + self.7.encoding(c)->Ok_0;
        let r8 = encode_next(encoder, &self.8, Ghost(e0), Ghost(d8));
        if r8.is_err() {
            proof {
                if let Ok(t) = self.encoding(c) {
                    if e0.room(t.len()) {
                        e0.lemma_room_prefix(t.len(), (d8 + self.8.encoding(c)->Ok_0).len());
                    }
                }
            }
            return r8;
        }
        let ghost d9 = d8 + self.8.encoding(c)->Ok_0;
        let r9 = encode_next(encoder, &self.9, Ghost(e0), Ghost(d9));
        if r9.is_err() {
            proof {
                if let Ok(t) = self.encoding(c) {
                    if e0.room(t.len()) {
                        e0.lemma_room_prefix(t.len(), (d9 + self.9.encoding(c)->Ok_0).len());
                    }
                }
            }
            return r9;
        }
        let ghost d10 = d9 + self.9.encoding(c)->Ok_0;
        let r10 = encode_next(encoder, &self.10, Ghost(e0), Ghost(d10));
        if r10.is_err() {
            proof {
                if let Ok(t) = self.encoding(c) {
                    if e0.room(t.len()) {
                        e0.lemma_room_prefix(t.len(), (d10 + self.10.encoding(c)->Ok_0).len());
                    }
                }
            }
            return r10;
        }
        let ghost d11 = d10 + self.10.encoding(c)->Ok_0;
        let r11 = encode_next(encoder, &self.11, Ghost(e0), Ghost(d11));
        if r11.is_err() {
            proof {
                if let Ok(t) = self.encoding(c) {
                    if e0.room(t.len()) {
                        e0.lemma_room_prefix(t.len(), (d11 + self.11.encoding(c)->Ok_0).len());
                    }
                }
            }
            return r11;
        }
        let ghost d12 = d11 + self.11.encoding(c)->Ok_0;
        let r12 = encode_next(encoder, &self.12, Ghost(e0), Ghost(d12));
        if r12.is_err() {
            proof {
                if let Ok(t) = self.encoding(c) {
                    if e0.room(t.len()) {
                        e0.lemma_room_prefix(t.len(), (d12 + self.12.encoding(c)->Ok_0).len());
                    }
                }
            }
            return r12;
        }
        let ghost d13 = d12 + self.12.encoding(c)->Ok_0;
        let r13 = encode_next(encoder, &self.13, Ghost(e0), Ghost(d13));
        if r13.is_err() {
            proof {
                if let Ok(t) = self.encoding(c) {
                    if e0.room(t.len()) {
                        e0.lemma_room_prefix(t.len(), (d13 + self.13.encoding(c)->Ok_0).len());
                    }
                }
            }
            return r13;
        }
        let ghost d14 = d13 + self.13.encoding(c)->Ok_0;
        let r14 = encode_next(encoder, &self.14, Ghost(e0), Ghost(d14));
        if r14.is_err() {
            proof {
                if let Ok(t) = self.encoding(c) {
                    if e0.room(t.len()) {
                        e0.lemma_room_prefix(t.len(), (d14 + self.14.encoding(c)->Ok_0).len());
                    }
                }
            }
            return r14;
        }
        let ghost d15 = d14 + self.14.encoding(c)->Ok_0;
        let r15 = encode_next(encoder, &self.15, Ghost(e0), Ghost(d15));
        if r15.is_err() {
            proof {
                if let Ok(t) = self.encoding(c) {
                    if e0.room(t.len()) {
                        e0.lemma_room_prefix(t.len(), (d15 + self.15.encoding(c)->Ok_0).len());
                    }
                }
            }
            return r15;
        }
        let ghost d16 = d15 + self.15.encoding(c)->Ok_0;
        proof {
            assert(d16 =~= self.0.encoding(c)->Ok_0 + self.1.encoding(c)->Ok_0 + self.2.encoding(c)->Ok_0 + self.3.encoding(c)->Ok_0 + self.4.encoding(c)->Ok_0 + self.5.encoding(c)->Ok_0 + self.6.encoding(c)->Ok_0 + self.7.encoding(c)->Ok_0 + self.8.encoding(c)->Ok_0 + self.9.encoding(c)->Ok_0 + self.10.encoding(c)->Ok_0 + self.11.encoding(c)->Ok_0 + self.12.encoding(c)->Ok_0 + self.13.encoding(c)->Ok_0 + self.14.encoding(c)->Ok_0 + self.15.encoding(c)->Ok_0);
        }
        r15
    }
}

} // verus!
