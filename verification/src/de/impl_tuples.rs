//! Decoding of tuples: the fields one after the other.
use super::{BorrowDecode, BorrowDecoder, Decode, Decoder, Model};
use crate::config::Configuration;
use crate::error::DecodeError;
use vstd::prelude::*;

verus! {

impl<T0: Model> Model for (T0,) {
    type V = (T0::V,);

    open spec fn model(&self) -> (T0::V,) {
        (self.0.model(),)
    }

    open spec fn byte_sized() -> bool {
        false
    }

    fn is_byte_sized() -> (r: bool) {
        false
    }

    open spec fn byte_value(b: u8) -> (T0::V,) {
        (T0::byte_value(b),)
    }

    open spec fn byte_of(&self) -> u8 {
        0
    }

    fn to_byte(&self) -> (b: u8) {
        0
    }
}

impl<Context, T0: Decode<Context>> Decode<Context> for (T0,) {
    open spec fn decoding(c: Configuration, k: nat, s: Seq<u8>) -> Result<((T0::V,), nat, nat), DecodeError> {
        match T0::decoding(c, k, s) {
            Ok((v0, n0, k0)) => Ok(((v0,), n0, k0)),
            Err(e) => Err(e),
        }
    }

    fn from_byte(b: u8) -> (r: Option<Self>) {
        None
    }

    fn decode<D: Decoder<Context = Context>>(decoder: &mut D) -> (r: Result<Self, DecodeError>) {
        let ghost c = decoder.settings();
        let ghost s = decoder.pending();
        let ghost p0 = decoder.pending();
        let ghost q0 = decoder.claimed();
        let x0 = match T0::decode(decoder) {
            Ok(v) => v,
            Err(e) => return Err(e),
        };
        let ghost n0: nat = T0::decoding(c, q0, p0)->Ok_0.1;
        proof {
            assert(decoder.pending() =~= s.skip(n0 as int));
        }
        Ok((x0,))
    }
}

impl<'de, Context, T0: BorrowDecode<'de, Context>> BorrowDecode<'de, Context> for (T0,) {
    open spec fn borrow_decoding(c: Configuration, k: nat, s: Seq<u8>) -> Result<((T0::V,), nat, nat), DecodeError> {
        match T0::borrow_decoding(c, k, s) {
            Ok((v0, n0, k0)) => Ok(((v0,), n0, k0)),
            Err(e) => Err(e),
        }
    }

    fn borrow_from_byte(b: u8) -> (r: Option<Self>) {
        None
    }

    fn borrow_decode<D: BorrowDecoder<'de, Context = Context>>(decoder: &mut D) -> (r: Result<Self, DecodeError>) {
        let ghost c = decoder.settings();
        let ghost s = decoder.pending();
        let ghost p0 = decoder.pending();
        let ghost q0 = decoder.claimed();
        let x0 = match T0::borrow_decode(decoder) {
            Ok(v) => v,
            Err(e) => return Err(e),
        };
        let ghost n0: nat = T0::borrow_decoding(c, q0, p0)->Ok_0.1;
        proof {
            assert(decoder.pending() =~= s.skip(n0 as int));
        }
        Ok((x0,))
    }
}

impl<T0: Model, T1: Model> Model for (T0, T1) {
    type V = (T0::V, T1::V);

    open spec fn model(&self) -> (T0::V, T1::V) {
        (self.0.model(), self.1.model())
    }

    open spec fn byte_sized() -> bool {
        false
    }

    fn is_byte_sized() -> (r: bool) {
        false
    }

    open spec fn byte_value(b: u8) -> (T0::V, T1::V) {
        (T0::byte_value(b), T1::byte_value(b))
    }

    open spec fn byte_of(&self) -> u8 {
        0
    }

    fn to_byte(&self) -> (b: u8) {
        0
    }
}

impl<Context, T0: Decode<Context>, T1: Decode<Context>> Decode<Context> for (T0, T1) {
    open spec fn decoding(c: Configuration, k: nat, s: Seq<u8>) -> Result<((T0::V, T1::V), nat, nat), DecodeError> {
        match T0::decoding(c, k, s) {
            Ok((v0, n0, k0)) => match T1::decoding(c, k0, s.skip((n0) as int)) {
                Ok((v1, n1, k1)) => Ok(((v0, v1), n0 + n1, k1)),
                Err(e) => Err(e),
            },
            Err(e) => Err(e),
        }
    }

    fn from_byte(b: u8) -> (r: Option<Self>) {
        None
    }

    fn decode<D: Decoder<Context = Context>>(decoder: &mut D) -> (r: Result<Self, DecodeError>) {
        let ghost c = decoder.settings();
        let ghost s = decoder.pending();
        let ghost p0 = decoder.pending();
        let ghost q0 = decoder.claimed();
        let x0 = match T0::decode(decoder) {
            Ok(v) => v,
            Err(e) => return Err(e),
        };
        let ghost n0: nat = T0::decoding(c, q0, p0)->Ok_0.1;
        proof {
            assert(decoder.pending() =~= s.skip(n0 as int));
        }
        let ghost p1 = decoder.pending();
        let ghost q1 = decoder.claimed();
        let x1 = match T1::decode(decoder) {
            Ok(v) => v,
            Err(e) => return Err(e),
        };
        let ghost n1: nat = T1::decoding(c, q1, p1)->Ok_0.1;
        proof {
            assert(decoder.pending() =~= s.skip((n0 + n1) as int));
        }
        Ok((x0, x1))
    }
}

impl<'de, Context, T0: BorrowDecode<'de, Context>, T1: BorrowDecode<'de, Context>> BorrowDecode<'de, Context> for (T0, T1) {
    open spec fn borrow_decoding(c: Configuration, k: nat, s: Seq<u8>) -> Result<((T0::V, T1::V), nat, nat), DecodeError> {
        match T0::borrow_decoding(c, k, s) {
            Ok((v0, n0, k0)) => match T1::borrow_decoding(c, k0, s.skip((n0) as int)) {
                Ok((v1, n1, k1)) => Ok(((v0, v1), n0 + n1, k1)),
                Err(e) => Err(e),
            },
            Err(e) => Err(e),
        }
    }

    fn borrow_from_byte(b: u8) -> (r: Option<Self>) {
        None
    }

    fn borrow_decode<D: BorrowDecoder<'de, Context = Context>>(decoder: &mut D) -> (r: Result<Self, DecodeError>) {
        let ghost c = decoder.settings();
        let ghost s = decoder.pending();
        let ghost p0 = decoder.pending();
        let ghost q0 = decoder.claimed();
        let x0 = match T0::borrow_decode(decoder) {
            Ok(v) => v,
            Err(e) => return Err(e),
        };
        let ghost n0: nat = T0::borrow_decoding(c, q0, p0)->Ok_0.1;
        proof {
            assert(decoder.pending() =~= s.skip(n0 as int));
        }
        let ghost p1 = decoder.pending();
        let ghost q1 = decoder.claimed();
        let x1 = match T1::borrow_decode(decoder) {
            Ok(v) => v,
            Err(e) => return Err(e),
        };
        let ghost n1: nat = T1::borrow_decoding(c, q1, p1)->Ok_0.1;
        proof {
            assert(decoder.pending() =~= s.skip((n0 + n1) as int));
        }
        Ok((x0, x1))
    }
}

impl<T0: Model, T1: Model, T2: Model> Model for (T0, T1, T2) {
    type V = (T0::V, T1::V, T2::V);

    open spec fn model(&self) -> (T0::V, T1::V, T2::V) {
        (self.0.model(), self.1.model(), self.2.model())
    }

    open spec fn byte_sized() -> bool {
        false
    }

    fn is_byte_sized() -> (r: bool) {
        false
    }

    open spec fn byte_value(b: u8) -> (T0::V, T1::V, T2::V) {
        (T0::byte_value(b), T1::byte_value(b), T2::byte_value(b))
    }

    open spec fn byte_of(&self) -> u8 {
        0
    }

    fn to_byte(&self) -> (b: u8) {
        0
    }
}

impl<Context, T0: Decode<Context>, T1: Decode<Context>, T2: Decode<Context>> Decode<Context> for (T0, T1, T2) {
    open spec fn decoding(c: Configuration, k: nat, s: Seq<u8>) -> Result<((T0::V, T1::V, T2::V), nat, nat), DecodeError> {
        match T0::decoding(c, k, s) {
            Ok((v0, n0, k0)) => match T1::decoding(c, k0, s.skip((n0) as int)) {
                Ok((v1, n1, k1)) => match T2::decoding(c, k1, s.skip((n0 + n1) as int)) {
                    Ok((v2, n2, k2)) => Ok(((v0, v1, v2), n0 + n1 + n2, k2)),
                    Err(e) => Err(e),
                },
                Err(e) => Err(e),
            },
            Err(e) => Err(e),
        }
    }

    fn from_byte(b: u8) -> (r: Option<Self>) {
        None
    }

    fn decode<D: Decoder<Context = Context>>(decoder: &mut D) -> (r: Result<Self, DecodeError>) {
        let ghost c = decoder.settings();
        let ghost s = decoder.pending();
        let ghost p0 = decoder.pending();
        let ghost q0 = decoder.claimed();
        let x0 = match T0::decode(decoder) {
            Ok(v) => v,
            Err(e) => return Err(e),
        };
        let ghost n0: nat = T0::decoding(c, q0, p0)->Ok_0.1;
        proof {
            assert(decoder.pending() =~= s.skip(n0 as int));
        }
        let ghost p1 = decoder.pending();
        let ghost q1 = decoder.claimed();
        let x1 = match T1::decode(decoder) {
            Ok(v) => v,
            Err(e) => return Err(e),
        };
        let ghost n1: nat = T1::decoding(c, q1, p1)->Ok_0.1;
        proof {
            assert(decoder.pending() =~= s.skip((n0 + n1) as int));
        }
        let ghost p2 = decoder.pending();
        let ghost q2 = decoder.claimed();
        let x2 = match T2::decode(decoder) {
            Ok(v) => v,
            Err(e) => return Err(e),
        };
        let ghost n2: nat = T2::decoding(c, q2, p2)->Ok_0.1;
        proof {
            assert(decoder.pending() =~= s.skip((n0 + n1 + n2) as int));
        }
        Ok((x0, x1, x2))
    }
}

impl<'de, Context, T0: BorrowDecode<'de, Context>, T1: BorrowDecode<'de, Context>, T2: BorrowDecode<'de, Context>> BorrowDecode<'de, Context> for (T0, T1, T2) {
    open spec fn borrow_decoding(c: Configuration, k: nat, s: Seq<u8>) -> Result<((T0::V, T1::V, T2::V), nat, nat), DecodeError> {
        match T0::borrow_decoding(c, k, s) {
            Ok((v0, n0, k0)) => match T1::borrow_decoding(c, k0, s.skip((n0) as int)) {
                Ok((v1, n1, k1)) => match T2::borrow_decoding(c, k1, s.skip((n0 + n1) as int)) {
                    Ok((v2, n2, k2)) => Ok(((v0, v1, v2), n0 + n1 + n2, k2)),
                    Err(e) => Err(e),
                },
                Err(e) => Err(e),
            },
            Err(e) => Err(e),
        }
    }

    fn borrow_from_byte(b: u8) -> (r: Option<Self>) {
        None
    }

    fn borrow_decode<D: BorrowDecoder<'de, Context = Context>>(decoder: &mut D) -> (r: Result<Self, DecodeError>) {
        let ghost c = decoder.settings();
        let ghost s = decoder.pending();
        let ghost p0 = decoder.pending();
        let ghost q0 = decoder.claimed();
        let x0 = match T0::borrow_decode(decoder) {
            Ok(v) => v,
            Err(e) => return Err(e),
        };
        let ghost n0: nat = T0::borrow_decoding(c, q0, p0)->Ok_0.1;
        proof {
            assert(decoder.pending() =~= s.skip(n0 as int));
        }
        let ghost p1 = decoder.pending();
        let ghost q1 = decoder.claimed();
        let x1 = match T1::borrow_decode(decoder) {
            Ok(v) => v,
            Err(e) => return Err(e),
        };
        let ghost n1: nat = T1::borrow_decoding(c, q1, p1)->Ok_0.1;
        proof {
            assert(decoder.pending() =~= s.skip((n0 + n1) as int));
        }
        let ghost p2 = decoder.pending();
        let ghost q2 = decoder.claimed();
        let x2 = match T2::borrow_decode(decoder) {
            Ok(v) => v,
            Err(e) => return Err(e),
        };
        let ghost n2: nat = T2::borrow_decoding(c, q2, p2)->Ok_0.1;
        proof {
            assert(decoder.pending() =~= s.skip((n0 + n1 + n2) as int));
        }
        Ok((x0, x1, x2))
    }
}

impl<T0: Model, T1: Model, T2: Model, T3: Model> Model for (T0, T1, T2, T3) {
    type V = (T0::V, T1::V, T2::V, T3::V);

    open spec fn model(&self) -> (T0::V, T1::V, T2::V, T3::V) {
        (self.0.model(), self.1.model(), self.2.model(), self.3.model())
    }

    open spec fn byte_sized() -> bool {
        false
    }

    fn is_byte_sized() -> (r: bool) {
        false
    }

    open spec fn byte_value(b: u8) -> (T0::V, T1::V, T2::V, T3::V) {
        (T0::byte_value(b), T1::byte_value(b), T2::byte_value(b), T3::byte_value(b))
    }

    open spec fn byte_of(&self) -> u8 {
        0
    }

    fn to_byte(&self) -> (b: u8) {
        0
    }
}

impl<Context, T0: Decode<Context>, T1: Decode<Context>, T2: Decode<Context>, T3: Decode<Context>> Decode<Context> for (T0, T1, T2, T3) {
    open spec fn decoding(c: Configuration, k: nat, s: Seq<u8>) -> Result<((T0::V, T1::V, T2::V, T3::V), nat, nat), DecodeError> {
        match T0::decoding(c, k, s) {
            Ok((v0, n0, k0)) => match T1::decoding(c, k0, s.skip((n0) as int)) {
                Ok((v1, n1, k1)) => match T2::decoding(c, k1, s.skip((n0 + n1) as int)) {
                    Ok((v2, n2, k2)) => match T3::decoding(c, k2, s.skip((n0 + n1 + n2) as int)) {
                        Ok((v3, n3, k3)) => Ok(((v0, v1, v2, v3), n0 + n1 + n2 + n3, k3)),
                        Err(e) => Err(e),
                    },
                    Err(e) => Err(e),
                },
                Err(e) => Err(e),
            },
            Err(e) => Err(e),
        }
    }

    fn from_byte(b: u8) -> (r: Option<Self>) {
        None
    }

    fn decode<D: Decoder<Context = Context>>(decoder: &mut D) -> (r: Result<Self, DecodeError>) {
        let ghost c = decoder.settings();
        let ghost s = decoder.pending();
        let ghost p0 = decoder.pending();
        let ghost q0 = decoder.claimed();
        let x0 = match T0::decode(decoder) {
            Ok(v) => v,
            Err(e) => return Err(e),
        };
        let ghost n0: nat = T0::decoding(c, q0, p0)->Ok_0.1;
        proof {
            assert(decoder.pending() =~= s.skip(n0 as int));
        }
        let ghost p1 = decoder.pending();
        let ghost q1 = decoder.claimed();
        let x1 = match T1::decode(decoder) {
            Ok(v) => v,
            Err(e) => return Err(e),
        };
        let ghost n1: nat = T1::decoding(c, q1, p1)->Ok_0.1;
        proof {
            assert(decoder.pending() =~= s.skip((n0 + n1) as int));
        }
        let ghost p2 = decoder.pending();
        let ghost q2 = decoder.claimed();
        let x2 = match T2::decode(decoder) {
            Ok(v) => v,
            Err(e) => return Err(e),
        };
        let ghost n2: nat = T2::decoding(c, q2, p2)->Ok_0.1;
        proof {
            assert(decoder.pending() =~= s.skip((n0 + n1 + n2) as int));
        }
        let ghost p3 = decoder.pending();
        let ghost q3 = decoder.claimed();
        let x3 = match T3::decode(decoder) {
            Ok(v) => v,
            Err(e) => return Err(e),
        };
        let ghost n3: nat = T3::decoding(c, q3, p3)->Ok_0.1;
        proof {
            assert(decoder.pending() =~= s.skip((n0 + n1 + n2 + n3) as int));
        }
        Ok((x0, x1, x2, x3))
    }
}

impl<'de, Context, T0: BorrowDecode<'de, Context>, T1: BorrowDecode<'de, Context>, T2: BorrowDecode<'de, Context>, T3: BorrowDecode<'de, Context>> BorrowDecode<'de, Context> for (T0, T1, T2, T3) {
    open spec fn borrow_decoding(c: Configuration, k: nat, s: Seq<u8>) -> Result<((T0::V, T1::V, T2::V, T3::V), nat, nat), DecodeError> {
        match T0::borrow_decoding(c, k, s) {
            Ok((v0, n0, k0)) => match T1::borrow_decoding(c, k0, s.skip((n0) as int)) {
                Ok((v1, n1, k1)) => match T2::borrow_decoding(c, k1, s.skip((n0 + n1) as int)) {
                    Ok((v2, n2, k2)) => match T3::borrow_decoding(c, k2, s.skip((n0 + n1 + n2) as int)) {
                        Ok((v3, n3, k3)) => Ok(((v0, v1, v2, v3), n0 + n1 + n2 + n3, k3)),
                        Err(e) => Err(e),
                    },
                    Err(e) => Err(e),
                },
                Err(e) => Err(e),
            },
            Err(e) => Err(e),
        }
    }

    fn borrow_from_byte(b: u8) -> (r: Option<Self>) {
        None
    }

    fn borrow_decode<D: BorrowDecoder<'de, Context = Context>>(decoder: &mut D) -> (r: Result<Self, DecodeError>) {
        let ghost c = decoder.settings();
        let ghost s = decoder.pending();
        let ghost p0 = decoder.pending();
        let ghost q0 = decoder.claimed();
        let x0 = match T0::borrow_decode(decoder) {
            Ok(v) => v,
            Err(e) => return Err(e),
        };
        let ghost n0: nat = T0::borrow_decoding(c, q0, p0)->Ok_0.1;
        proof {
            assert(decoder.pending() =~= s.skip(n0 as int));
        }
        let ghost p1 = decoder.pending();
        let ghost q1 = decoder.claimed();
        let x1 = match T1::borrow_decode(decoder) {
            Ok(v) => v,
            Err(e) => return Err(e),
        };
        let ghost n1: nat = T1::borrow_decoding(c, q1, p1)->Ok_0.1;
        proof {
            assert(decoder.pending() =~= s.skip((n0 + n1) as int));
        }
        let ghost p2 = decoder.pending();
        let ghost q2 = decoder.claimed();
        let x2 = match T2::borrow_decode(decoder) {
            Ok(v) => v,
            Err(e) => return Err(e),
        };
        let ghost n2: nat = T2::borrow_decoding(c, q2, p2)->Ok_0.1;
        proof {
            assert(decoder.pending() =~= s.skip((n0 + n1 + n2) as int));
        }
        let ghost p3 = decoder.pending();
        let ghost q3 = decoder.claimed();
        let x3 = match T3::borrow_decode(decoder) {
            Ok(v) => v,
            Err(e) => return Err(e),
        };
        let ghost n3: nat = T3::borrow_decoding(c, q3, p3)->Ok_0.1;
        proof {
            assert(decoder.pending() =~= s.skip((n0 + n1 + n2 + n3) as int));
        }
        Ok((x0, x1, x2, x3))
    }
}

impl<T0: Model, T1: Model, T2: Model, T3: Model, T4: Model> Model for (T0, T1, T2, T3, T4) {
    type V = (T0::V, T1::V, T2::V, T3::V, T4::V);

    open spec fn model(&self) -> (T0::V, T1::V, T2::V, T3::V, T4::V) {
        (self.0.model(), self.1.model(), self.2.model(), self.3.model(), self.4.model())
    }

    open spec fn byte_sized() -> bool {
        false
    }

    fn is_byte_sized() -> (r: bool) {
        false
    }

    open spec fn byte_value(b: u8) -> (T0::V, T1::V, T2::V, T3::V, T4::V) {
        (T0::byte_value(b), T1::byte_value(b), T2::byte_value(b), T3::byte_value(b), T4::byte_value(b))
    }

    open spec fn byte_of(&self) -> u8 {
        0
    }

    fn to_byte(&self) -> (b: u8) {
        0
    }
}

impl<Context, T0: Decode<Context>, T1: Decode<Context>, T2: Decode<Context>, T3: Decode<Context>, T4: Decode<Context>> Decode<Context> for (T0, T1, T2, T3, T4) {
    open spec fn decoding(c: Configuration, k: nat, s: Seq<u8>) -> Result<((T0::V, T1::V, T2::V, T3::V, T4::V), nat, nat), DecodeError> {
        match T0::decoding(c, k, s) {
            Ok((v0, n0, k0)) => match T1::decoding(c, k0, s.skip((n0) as int)) {
                Ok((v1, n1, k1)) => match T2::decoding(c, k1, s.skip((n0 + n1) as int)) {
                    Ok((v2, n2, k2)) => match T3::decoding(c, k2, s.skip((n0 + n1 + n2) as int)) {
                        Ok((v3, n3, k3)) => match T4::decoding(c, k3, s.skip((n0 + n1 + n2 + n3) as int)) {
                            Ok((v4, n4, k4)) => Ok(((v0, v1, v2, v3, v4), n0 + n1 + n2 + n3 + n4, k4)),
                            Err(e) => Err(e),
                        },
                        Err(e) => Err(e),
                    },
                    Err(e) => Err(e),
                },
                Err(e) => Err(e),
            },
            Err(e) => Err(e),
        }
    }

    fn from_byte(b: u8) -> (r: Option<Self>) {
        None
    }

    fn decode<D: Decoder<Context = Context>>(decoder: &mut D) -> (r: Result<Self, DecodeError>) {
        let ghost c = decoder.settings();
        let ghost s = decoder.pending();
        let ghost p0 = decoder.pending();
        let ghost q0 = decoder.claimed();
        let x0 = match T0::decode(decoder) {
            Ok(v) => v,
            Err(e) => return Err(e),
        };
        let ghost n0: nat = T0::decoding(c, q0, p0)->Ok_0.1;
        proof {
            assert(decoder.pending() =~= s.skip(n0 as int));
        }
        let ghost p1 = decoder.pending();
        let ghost q1 = decoder.claimed();
        let x1 = match T1::decode(decoder) {
            Ok(v) => v,
            Err(e) => return Err(e),
        };
        let ghost n1: nat = T1::decoding(c, q1, p1)->Ok_0.1;
        proof {
            assert(decoder.pending() =~= s.skip((n0 + n1) as int));
        }
        let ghost p2 = decoder.pending();
        let ghost q2 = decoder.claimed();
        let x2 = match T2::decode(decoder) {
            Ok(v) => v,
            Err(e) => return Err(e),
        };
        let ghost n2: nat = T2::decoding(c, q2, p2)->Ok_0.1;
        proof {
            assert(decoder.pending() =~= s.skip((n0 + n1 + n2) as int));
        }
        let ghost p3 = decoder.pending();
        let ghost q3 = decoder.claimed();
        let x3 = match T3::decode(decoder) {
            Ok(v) => v,
            Err(e) => return Err(e),
        };
        let ghost n3: nat = T3::decoding(c, q3, p3)->Ok_0.1;
        proof {
            assert(decoder.pending() =~= s.skip((n0 + n1 + n2 + n3) as int));
        }
        let ghost p4 = decoder.pending();
        let ghost q4 = decoder.claimed();
        let x4 = match T4::decode(decoder) {
            Ok(v) => v,
            Err(e) => return Err(e),
        };
        let ghost n4: nat = T4::decoding(c, q4, p4)->Ok_0.1;
        proof {
            assert(decoder.pending() =~= s.skip((n0 + n1 + n2 + n3 + n4) as int));
        }
        Ok((x0, x1, x2, x3, x4))
    }
}

impl<'de, Context, T0: BorrowDecode<'de, Context>, T1: BorrowDecode<'de, Context>, T2: BorrowDecode<'de, Context>, T3: BorrowDecode<'de, Context>, T4: BorrowDecode<'de, Context>> BorrowDecode<'de, Context> for (T0, T1, T2, T3, T4) {
    open spec fn borrow_decoding(c: Configuration, k: nat, s: Seq<u8>) -> Result<((T0::V, T1::V, T2::V, T3::V, T4::V), nat, nat), DecodeError> {
        match T0::borrow_decoding(c, k, s) {
            Ok((v0, n0, k0)) => match T1::borrow_decoding(c, k0, s.skip((n0) as int)) {
                Ok((v1, n1, k1)) => match T2::borrow_decoding(c, k1, s.skip((n0 + n1) as int)) {
                    Ok((v2, n2, k2)) => match T3::borrow_decoding(c, k2, s.skip((n0 + n1 + n2) as int)) {
                        Ok((v3, n3, k3)) => match T4::borrow_decoding(c, k3, s.skip((n0 + n1 + n2 + n3) as int)) {
                            Ok((v4, n4, k4)) => Ok(((v0, v1, v2, v3, v4), n0 + n1 + n2 + n3 + n4, k4)),
                            Err(e) => Err(e),
                        },
                        Err(e) => Err(e),
                    },
                    Err(e) => Err(e),
                },
                Err(e) => Err(e),
            },
            Err(e) => Err(e),
        }
    }

    fn borrow_from_byte(b: u8) -> (r: Option<Self>) {
        None
    }

    fn borrow_decode<D: BorrowDecoder<'de, Context = Context>>(decoder: &mut D) -> (r: Result<Self, DecodeError>) {
        let ghost c = decoder.settings();
        let ghost s = decoder.pending();
        let ghost p0 = decoder.pending();
        let ghost q0 = decoder.claimed();
        let x0 = match T0::borrow_decode(decoder) {
            Ok(v) => v,
            Err(e) => return Err(e),
        };
        let ghost n0: nat = T0::borrow_decoding(c, q0, p0)->Ok_0.1;
        proof {
            assert(decoder.pending() =~= s.skip(n0 as int));
        }
        let ghost p1 = decoder.pending();
        let ghost q1 = decoder.claimed();
        let x1 = match T1::borrow_decode(decoder) {
            Ok(v) => v,
            Err(e) => return Err(e),
        };
        let ghost n1: nat = T1::borrow_decoding(c, q1, p1)->Ok_0.1;
        proof {
            assert(decoder.pending() =~= s.skip((n0 + n1) as int));
        }
        let ghost p2 = decoder.pending();
        let ghost q2 = decoder.claimed();
        let x2 = match T2::borrow_decode(decoder) {
            Ok(v) => v,
            Err(e) => return Err(e),
        };
        let ghost n2: nat = T2::borrow_decoding(c, q2, p2)->Ok_0.1;
        proof {
            assert(decoder.pending() =~= s.skip((n0 + n1 + n2) as int));
        }
        let ghost p3 = decoder.pending();
        let ghost q3 = decoder.claimed();
        let x3 = match T3::borrow_decode(decoder) {
            Ok(v) => v,
            Err(e) => return Err(e),
        };
        let ghost n3: nat = T3::borrow_decoding(c, q3, p3)->Ok_0.1;
        proof {
            assert(decoder.pending() =~= s.skip((n0 + n1 + n2 + n3) as int));
        }
        let ghost p4 = decoder.pending();
        let ghost q4 = decoder.claimed();
        let x4 = match T4::borrow_decode(decoder) {
            Ok(v) => v,
            Err(e) => return Err(e),
        };
        let ghost n4: nat = T4::borrow_decoding(c, q4, p4)->Ok_0.1;
        proof {
            assert(decoder.pending() =~= s.skip((n0 + n1 + n2 + n3 + n4) as int));
        }
        Ok((x0, x1, x2, x3, x4))
    }
}

impl<T0: Model, T1: Model, T2: Model, T3: Model, T4: Model, T5: Model> Model for (T0, T1, T2, T3, T4, T5) {
    type V = (T0::V, T1::V, T2::V, T3::V, T4::V, T5::V);

    open spec fn model(&self) -> (T0::V, T1::V, T2::V, T3::V, T4::V, T5::V) {
        (self.0.model(), self.1.model(), self.2.model(), self.3.model(), self.4.model(), self.5.model())
    }

    open spec fn byte_sized() -> bool {
        false
    }

    fn is_byte_sized() -> (r: bool) {
        false
    }

    open spec fn byte_value(b: u8) -> (T0::V, T1::V, T2::V, T3::V, T4::V, T5::V) {
        (T0::byte_value(b), T1::byte_value(b), T2::byte_value(b), T3::byte_value(b), T4::byte_value(b), T5::byte_value(b))
    }

    open spec fn byte_of(&self) -> u8 {
        0
    }

    fn to_byte(&self) -> (b: u8) {
        0
    }
}

impl<Context, T0: Decode<Context>, T1: Decode<Context>, T2: Decode<Context>, T3: Decode<Context>, T4: Decode<Context>, T5: Decode<Context>> Decode<Context> for (T0, T1, T2, T3, T4, T5) {
    open spec fn decoding(c: Configuration, k: nat, s: Seq<u8>) -> Result<((T0::V, T1::V, T2::V, T3::V, T4::V, T5::V), nat, nat), DecodeError> {
        match T0::decoding(c, k, s) {
            Ok((v0, n0, k0)) => match T1::decoding(c, k0, s.skip((n0) as int)) {
                Ok((v1, n1, k1)) => match T2::decoding(c, k1, s.skip((n0 + n1) as int)) {
                    Ok((v2, n2, k2)) => match T3::decoding(c, k2, s.skip((n0 + n1 + n2) as int)) {
                        Ok((v3, n3, k3)) => match T4::decoding(c, k3, s.skip((n0 + n1 + n2 + n3) as int)) {
                            Ok((v4, n4, k4)) => match T5::decoding(c, k4, s.skip((n0 + n1 + n2 + n3 + n4) as int)) {
                                Ok((v5, n5, k5)) => Ok(((v0, v1, v2, v3, v4, v5), n0 + n1 + n2 + n3 + n4 + n5, k5)),
                                Err(e) => Err(e),
                            },
                            Err(e) => Err(e),
                        },
                        Err(e) => Err(e),
                    },
                    Err(e) => Err(e),
                },
                Err(e) => Err(e),
            },
            Err(e) => Err(e),
        }
    }

    fn from_byte(b: u8) -> (r: Option<Self>) {
        None
    }

    fn decode<D: Decoder<Context = Context>>(decoder: &mut D) -> (r: Result<Self, DecodeError>) {
        let ghost c = decoder.settings();
        let ghost s = decoder.pending();
        let ghost p0 = decoder.pending();
        let ghost q0 = decoder.claimed();
        let x0 = match T0::decode(decoder) {
            Ok(v) => v,
            Err(e) => return Err(e),
        };
        let ghost n0: nat = T0::decoding(c, q0, p0)->Ok_0.1;
        proof {
            assert(decoder.pending() =~= s.skip(n0 as int));
        }
        let ghost p1 = decoder.pending();
        let ghost q1 = decoder.claimed();
        let x1 = match T1::decode(decoder) {
            Ok(v) => v,
            Err(e) => return Err(e),
        };
        let ghost n1: nat = T1::decoding(c, q1, p1)->Ok_0.1;
        proof {
            assert(decoder.pending() =~= s.skip((n0 + n1) as int));
        }
        let ghost p2 = decoder.pending();
        let ghost q2 = decoder.claimed();
        let x2 = match T2::decode(decoder) {
            Ok(v) => v,
            Err(e) => return Err(e),
        };
        let ghost n2: nat = T2::decoding(c, q2, p2)->Ok_0.1;
        proof {
            assert(decoder.pending() =~= s.skip((n0 + n1 + n2) as int));
        }
        let ghost p3 = decoder.pending();
        let ghost q3 = decoder.claimed();
        let x3 = match T3::decode(decoder) {
            Ok(v) => v,
            Err(e) => return Err(e),
        };
        let ghost n3: nat = T3::decoding(c, q3, p3)->Ok_0.1;
        proof {
            assert(decoder.pending() =~= s.skip((n0 + n1 + n2 + n3) as int));
        }
        let ghost p4 = decoder.pending();
        let ghost q4 = decoder.claimed();
        let x4 = match T4::decode(decoder) {
            Ok(v) => v,
            Err(e) => return Err(e),
        };
        let ghost n4: nat = T4::decoding(c, q4, p4)->Ok_0.1;
        proof {
            assert(decoder.pending() =~= s.skip((n0 + n1 + n2 + n3 + n4) as int));
        }
        let ghost p5 = decoder.pending();
        let ghost q5 = decoder.claimed();
        let x5 = match T5::decode(decoder) {
            Ok(v) => v,
            Err(e) => return Err(e),
        };
        let ghost n5: nat = T5::decoding(c, q5, p5)->Ok_0.1;
        proof {
            assert(decoder.pending() =~= s.skip((n0 + n1 + n2 + n3 + n4 + n5) as int));
        }
        Ok((x0, x1, x2, x3, x4, x5))
    }
}

impl<'de, Context, T0: BorrowDecode<'de, Context>, T1: BorrowDecode<'de, Context>, T2: BorrowDecode<'de, Context>, T3: BorrowDecode<'de, Context>, T4: BorrowDecode<'de, Context>, T5: BorrowDecode<'de, Context>> BorrowDecode<'de, Context> for (T0, T1, T2, T3, T4, T5) {
    open spec fn borrow_decoding(c: Configuration, k: nat, s: Seq<u8>) -> Result<((T0::V, T1::V, T2::V, T3::V, T4::V, T5::V), nat, nat), DecodeError> {
        match T0::borrow_decoding(c, k, s) {
            Ok((v0, n0, k0)) => match T1::borrow_decoding(c, k0, s.skip((n0) as int)) {
                Ok((v1, n1, k1)) => match T2::borrow_decoding(c, k1, s.skip((n0 + n1) as int)) {
                    Ok((v2, n2, k2)) => match T3::borrow_decoding(c, k2, s.skip((n0 + n1 + n2) as int)) {
                        Ok((v3, n3, k3)) => match T4::borrow_decoding(c, k3, s.skip((n0 + n1 + n2 + n3) as int)) {
                            Ok((v4, n4, k4)) => match T5::borrow_decoding(c, k4, s.skip((n0 + n1 + n2 + n3 + n4) as int)) {
                                Ok((v5, n5, k5)) => Ok(((v0, v1, v2, v3, v4, v5), n0 + n1 + n2 + n3 + n4 + n5, k5)),
                                Err(e) => Err(e),
                            },
                            Err(e) => Err(e),
                        },
                        Err(e) => Err(e),
                    },
                    Err(e) => Err(e),
                },
                Err(e) => Err(e),
            },
            Err(e) => Err(e),
        }
    }

    fn borrow_from_byte(b: u8) -> (r: Option<Self>) {
        None
    }

    fn borrow_decode<D: BorrowDecoder<'de, Context = Context>>(decoder: &mut D) -> (r: Result<Self, DecodeError>) {
        let ghost c = decoder.settings();
        let ghost s = decoder.pending();
        let ghost p0 = decoder.pending();
        let ghost q0 = decoder.claimed();
        let x0 = match T0::borrow_decode(decoder) {
            Ok(v) => v,
            Err(e) => return Err(e),
        };
        let ghost n0: nat = T0::borrow_decoding(c, q0, p0)->Ok_0.1;
        proof {
            assert(decoder.pending() =~= s.skip(n0 as int));
        }
        let ghost p1 = decoder.pending();
        let ghost q1 = decoder.claimed();
        let x1 = match T1::borrow_decode(decoder) {
            Ok(v) => v,
            Err(e) => return Err(e),
        };
        let ghost n1: nat = T1::borrow_decoding(c, q1, p1)->Ok_0.1;
        proof {
            assert(decoder.pending() =~= s.skip((n0 + n1) as int));
        }
        let ghost p2 = decoder.pending();
        let ghost q2 = decoder.claimed();
        let x2 = match T2::borrow_decode(decoder) {
            Ok(v) => v,
            Err(e) => return Err(e),
        };
        let ghost n2: nat = T2::borrow_decoding(c, q2, p2)->Ok_0.1;
        proof {
            assert(decoder.pending() =~= s.skip((n0 + n1 + n2) as int));
        }
        let ghost p3 = decoder.pending();
        let ghost q3 = decoder.claimed();
        let x3 = match T3::borrow_decode(decoder) {
            Ok(v) => v,
            Err(e) => return Err(e),
        };
        let ghost n3: nat = T3::borrow_decoding(c, q3, p3)->Ok_0.1;
        proof {
            assert(decoder.pending() =~= s.skip((n0 + n1 + n2 + n3) as int));
        }
        let ghost p4 = decoder.pending();
        let ghost q4 = decoder.claimed();
        let x4 = match T4::borrow_decode(decoder) {
            Ok(v) => v,
            Err(e) => return Err(e),
        };
        let ghost n4: nat = T4::borrow_decoding(c, q4, p4)->Ok_0.1;
        proof {
            assert(decoder.pending() =~= s.skip((n0 + n1 + n2 + n3 + n4) as int));
        }
        let ghost p5 = decoder.pending();
        let ghost q5 = decoder.claimed();
        let x5 = match T5::borrow_decode(decoder) {
            Ok(v) => v,
            Err(e) => return Err(e),
        };
        let ghost n5: nat = T5::borrow_decoding(c, q5, p5)->Ok_0.1;
        proof {
            assert(decoder.pending() =~= s.skip((n0 + n1 + n2 + n3 + n4 + n5) as int));
        }
        Ok((x0, x1, x2, x3, x4, x5))
    }
}

impl<T0: Model, T1: Model, T2: Model, T3: Model, T4: Model, T5: Model, T6: Model> Model for (T0, T1, T2, T3, T4, T5, T6) {
    type V = (T0::V, T1::V, T2::V, T3::V, T4::V, T5::V, T6::V);

    open spec fn model(&self) -> (T0::V, T1::V, T2::V, T3::V, T4::V, T5::V, T6::V) {
        (self.0.model(), self.1.model(), self.2.model(), self.3.model(), self.4.model(), self.5.model(), self.6.model())
    }

    open spec fn byte_sized() -> bool {
        false
    }

    fn is_byte_sized() -> (r: bool) {
        false
    }

    open spec fn byte_value(b: u8) -> (T0::V, T1::V, T2::V, T3::V, T4::V, T5::V, T6::V) {
        (T0::byte_value(b), T1::byte_value(b), T2::byte_value(b), T3::byte_value(b), T4::byte_value(b), T5::byte_value(b), T6::byte_value(b))
    }

    open spec fn byte_of(&self) -> u8 {
        0
    }

    fn to_byte(&self) -> (b: u8) {
        0
    }
}

impl<Context, T0: Decode<Context>, T1: Decode<Context>, T2: Decode<Context>, T3: Decode<Context>, T4: Decode<Context>, T5: Decode<Context>, T6: Decode<Context>> Decode<Context> for (T0, T1, T2, T3, T4, T5, T6) {
    open spec fn decoding(c: Configuration, k: nat, s: Seq<u8>) -> Result<((T0::V, T1::V, T2::V, T3::V, T4::V, T5::V, T6::V), nat, nat), DecodeError> {
        match T0::decoding(c, k, s) {
            Ok((v0, n0, k0)) => match T1::decoding(c, k0, s.skip((n0) as int)) {
                Ok((v1, n1, k1)) => match T2::decoding(c, k1, s.skip((n0 + n1) as int)) {
                    Ok((v2, n2, k2)) => match T3::decoding(c, k2, s.skip((n0 + n1 + n2) as int)) {
                        Ok((v3, n3, k3)) => match T4::decoding(c, k3, s.skip((n0 + n1 + n2 + n3) as int)) {
                            Ok((v4, n4, k4)) => match T5::decoding(c, k4, s.skip((n0 + n1 + n2 + n3 + n4) as int)) {
                                Ok((v5, n5, k5)) => match T6::decoding(c, k5, s.skip((n0 + n1 + n2 + n3 + n4 + n5) as int)) {
                                    Ok((v6, n6, k6)) => Ok(((v0, v1, v2, v3, v4, v5, v6), n0 + n1 + n2 + n3 + n4 + n5 + n6, k6)),
                                    Err(e) => Err(e),
                                },
                                Err(e) => Err(e),
                            },
                            Err(e) => Err(e),
                        },
                        Err(e) => Err(e),
                    },
                    Err(e) => Err(e),
                },
                Err(e) => Err(e),
            },
            Err(e) => Err(e),
        }
    }

    fn from_byte(b: u8) -> (r: Option<Self>) {
        None
    }

    fn decode<D: Decoder<Context = Context>>(decoder: &mut D) -> (r: Result<Self, DecodeError>) {
        let ghost c = decoder.settings();
        let ghost s = decoder.pending();
        let ghost p0 = decoder.pending();
        let ghost q0 = decoder.claimed();
        let x0 = match T0::decode(decoder) {
            Ok(v) => v,
            Err(e) => return Err(e),
        };
        let ghost n0: nat = T0::decoding(c, q0, p0)->Ok_0.1;
        proof {
            assert(decoder.pending() =~= s.skip(n0 as int));
        }
        let ghost p1 = decoder.pending();
        let ghost q1 = decoder.claimed();
        let x1 = match T1::decode(decoder) {
            Ok(v) => v,
            Err(e) => return Err(e),
        };
        let ghost n1: nat = T1::decoding(c, q1, p1)->Ok_0.1;
        proof {
            assert(decoder.pending() =~= s.skip((n0 + n1) as int));
        }
        let ghost p2 = decoder.pending();
        let ghost q2 = decoder.claimed();
        let x2 = match T2::decode(decoder) {
            Ok(v) => v,
            Err(e) => return Err(e),
        };
        let ghost n2: nat = T2::decoding(c, q2, p2)->Ok_0.1;
        proof {
            assert(decoder.pending() =~= s.skip((n0 + n1 + n2) as int));
        }
        let ghost p3 = decoder.pending();
        let ghost q3 = decoder.claimed();
        let x3 = match T3::decode(decoder) {
            Ok(v) => v,
            Err(e) => return Err(e),
        };
        let ghost n3: nat = T3::decoding(c, q3, p3)->Ok_0.1;
        proof {
            assert(decoder.pending() =~= s.skip((n0 + n1 + n2 + n3) as int));
        }
        let ghost p4 = decoder.pending();
        let ghost q4 = decoder.claimed();
        let x4 = match T4::decode(decoder) {
            Ok(v) => v,
            Err(e) => return Err(e),
        };
        let ghost n4: nat = T4::decoding(c, q4, p4)->Ok_0.1;
        proof {
            assert(decoder.pending() =~= s.skip((n0 + n1 + n2 + n3 + n4) as int));
        }
        let ghost p5 = decoder.pending();
        let ghost q5 = decoder.claimed();
        let x5 = match T5::decode(decoder) {
            Ok(v) => v,
            Err(e) => return Err(e),
        };
        let ghost n5: nat = T5::decoding(c, q5, p5)->Ok_0.1;
        proof {
            assert(decoder.pending() =~= s.skip((n0 + n1 + n2 + n3 + n4 + n5) as int));
        }
        let ghost p6 = decoder.pending();
        let ghost q6 = decoder.claimed();
        let x6 = match T6::decode(decoder) {
            Ok(v) => v,
            Err(e) => return Err(e),
        };
        let ghost n6: nat = T6::decoding(c, q6, p6)->Ok_0.1;
        proof {
            assert(decoder.pending() =~= s.skip((n0 + n1 + n2 + n3 + n4 + n5 + n6) as int));
        }
        Ok((x0, x1, x2, x3, x4, x5, x6))
    }
}

impl<'de, Context, T0: BorrowDecode<'de, Context>, T1: BorrowDecode<'de, Context>, T2: BorrowDecode<'de, Context>, T3: BorrowDecode<'de, Context>, T4: BorrowDecode<'de, Context>, T5: BorrowDecode<'de, Context>, T6: BorrowDecode<'de, Context>> BorrowDecode<'de, Context> for (T0, T1, T2, T3, T4, T5, T6) {
    open spec fn borrow_decoding(c: Configuration, k: nat, s: Seq<u8>) -> Result<((T0::V, T1::V, T2::V, T3::V, T4::V, T5::V, T6::V), nat, nat), DecodeError> {
        match T0::borrow_decoding(c, k, s) {
            Ok((v0, n0, k0)) => match T1::borrow_decoding(c, k0, s.skip((n0) as int)) {
                Ok((v1, n1, k1)) => match T2::borrow_decoding(c, k1, s.skip((n0 + n1) as int)) {
                    Ok((v2, n2, k2)) => match T3::borrow_decoding(c, k2, s.skip((n0 + n1 + n2) as int)) {
                        Ok((v3, n3, k3)) => match T4::borrow_decoding(c, k3, s.skip((n0 + n1 + n2 + n3) as int)) {
                            Ok((v4, n4, k4)) => match T5::borrow_decoding(c, k4, s.skip((n0 + n1 + n2 + n3 + n4) as int)) {
                                Ok((v5, n5, k5)) => match T6::borrow_decoding(c, k5, s.skip((n0 + n1 + n2 + n3 + n4 + n5) as int)) {
                                    Ok((v6, n6, k6)) => Ok(((v0, v1, v2, v3, v4, v5, v6), n0 + n1 + n2 + n3 + n4 + n5 + n6, k6)),
                                    Err(e) => Err(e),
                                },
                                Err(e) => Err(e),
                            },
                            Err(e) => Err(e),
                        },
                        Err(e) => Err(e),
                    },
                    Err(e) => Err(e),
                },
                Err(e) => Err(e),
            },
            Err(e) => Err(e),
        }
    }

    fn borrow_from_byte(b: u8) -> (r: Option<Self>) {
        None
    }

    fn borrow_decode<D: BorrowDecoder<'de, Context = Context>>(decoder: &mut D) -> (r: Result<Self, DecodeError>) {
        let ghost c = decoder.settings();
        let ghost s = decoder.pending();
        let ghost p0 = decoder.pending();
        let ghost q0 = decoder.claimed();
        let x0 = match T0::borrow_decode(decoder) {
            Ok(v) => v,
            Err(e) => return Err(e),
        };
        let ghost n0: nat = T0::borrow_decoding(c, q0, p0)->Ok_0.1;
        proof {
            assert(decoder.pending() =~= s.skip(n0 as int));
        }
        let ghost p1 = decoder.pending();
        let ghost q1 = decoder.claimed();
        let x1 = match T1::borrow_decode(decoder) {
            Ok(v) => v,
            Err(e) => return Err(e),
        };
        let ghost n1: nat = T1::borrow_decoding(c, q1, p1)->Ok_0.1;
        proof {
            assert(decoder.pending() =~= s.skip((n0 + n1) as int));
        }
        let ghost p2 = decoder.pending();
        let ghost q2 = decoder.claimed();
        let x2 = match T2::borrow_decode(decoder) {
            Ok(v) => v,
            Err(e) => return Err(e),
        };
        let ghost n2: nat = T2::borrow_decoding(c, q2, p2)->Ok_0.1;
        proof {
            assert(decoder.pending() =~= s.skip((n0 + n1 + n2) as int));
        }
        let ghost p3 = decoder.pending();
        let ghost q3 = decoder.claimed();
        let x3 = match T3::borrow_decode(decoder) {
            Ok(v) => v,
            Err(e) => return Err(e),
        };
        let ghost n3: nat = T3::borrow_decoding(c, q3, p3)->Ok_0.1;
        proof {
            assert(decoder.pending() =~= s.skip((n0 + n1 + n2 + n3) as int));
        }
        let ghost p4 = decoder.pending();
        let ghost q4 = decoder.claimed();
        let x4 = match T4::borrow_decode(decoder) {
            Ok(v) => v,
            Err(e) => return Err(e),
        };
        let ghost n4: nat = T4::borrow_decoding(c, q4, p4)->Ok_0.1;
        proof {
            assert(decoder.pending() =~= s.skip((n0 + n1 + n2 + n3 + n4) as int));
        }
        let ghost p5 = decoder.pending();
        let ghost q5 = decoder.claimed();
        let x5 = match T5::borrow_decode(decoder) {
            Ok(v) => v,
            Err(e) => return Err(e),
        };
        let ghost n5: nat = T5::borrow_decoding(c, q5, p5)->Ok_0.1;
        proof {
            assert(decoder.pending() =~= s.skip((n0 + n1 + n2 + n3 + n4 + n5) as int));
        }
        let ghost p6 = decoder.pending();
        let ghost q6 = decoder.claimed();
        let x6 = match T6::borrow_decode(decoder) {
            Ok(v) => v,
            Err(e) => return Err(e),
        };
        let ghost n6: nat = T6::borrow_decoding(c, q6, p6)->Ok_0.1;
        proof {
            assert(decoder.pending() =~= s.skip((n0 + n1 + n2 + n3 + n4 + n5 + n6) as int));
        }
        Ok((x0, x1, x2, x3, x4, x5, x6))
    }
}

impl<T0: Model, T1: Model, T2: Model, T3: Model, T4: Model, T5: Model, T6: Model, T7: Model> Model for (T0, T1, T2, T3, T4, T5, T6, T7) {
    type V = (T0::V, T1::V, T2::V, T3::V, T4::V, T5::V, T6::V, T7::V);

    open spec fn model(&self) -> (T0::V, T1::V, T2::V, T3::V, T4::V, T5::V, T6::V, T7::V) {
        (self.0.model(), self.1.model(), self.2.model(), self.3.model(), self.4.model(), self.5.model(), self.6.model(), self.7.model())
    }

    open spec fn byte_sized() -> bool {
        false
    }

    fn is_byte_sized() -> (r: bool) {
        false
    }

    open spec fn byte_value(b: u8) -> (T0::V, T1::V, T2::V, T3::V, T4::V, T5::V, T6::V, T7::V) {
        (T0::byte_value(b), T1::byte_value(b), T2::byte_value(b), T3::byte_value(b), T4::byte_value(b), T5::byte_value(b), T6::byte_value(b), T7::byte_value(b))
    }

    open spec fn byte_of(&self) -> u8 {
        0
    }

    fn to_byte(&self) -> (b: u8) {
        0
    }
}

impl<Context, T0: Decode<Context>, T1: Decode<Context>, T2: Decode<Context>, T3: Decode<Context>, T4: Decode<Context>, T5: Decode<Context>, T6: Decode<Context>, T7: Decode<Context>> Decode<Context> for (T0, T1, T2, T3, T4, T5, T6, T7) {
    open spec fn decoding(c: Configuration, k: nat, s: Seq<u8>) -> Result<((T0::V, T1::V, T2::V, T3::V, T4::V, T5::V, T6::V, T7::V), nat, nat), DecodeError> {
        match T0::decoding(c, k, s) {
            Ok((v0, n0, k0)) => match T1::decoding(c, k0, s.skip((n0) as int)) {
                Ok((v1, n1, k1)) => match T2::decoding(c, k1, s.skip((n0 + n1) as int)) {
                    Ok((v2, n2, k2)) => match T3::decoding(c, k2, s.skip((n0 + n1 + n2) as int)) {
                        Ok((v3, n3, k3)) => match T4::decoding(c, k3, s.skip((n0 + n1 + n2 + n3) as int)) {
                            Ok((v4, n4, k4)) => match T5::decoding(c, k4, s.skip((n0 + n1 + n2 + n3 + n4) as int)) {
                                Ok((v5, n5, k5)) => match T6::decoding(c, k5, s.skip((n0 + n1 + n2 + n3 + n4 + n5) as int)) {
                                    Ok((v6, n6, k6)) => match T7::decoding(c, k6, s.skip((n0 + n1 + n2 + n3 + n4 + n5 + n6) as int)) {
                                        Ok((v7, n7, k7)) => Ok(((v0, v1, v2, v3, v4, v5, v6, v7), n0 + n1 + n2 + n3 + n4 + n5 + n6 + n7, k7)),
                                        Err(e) => Err(e),
                                    },
                                    Err(e) => Err(e),
                                },
                                Err(e) => Err(e),
                            },
                            Err(e) => Err(e),
                        },
                        Err(e) => Err(e),
                    },
                    Err(e) => Err(e),
                },
                Err(e) => Err(e),
            },
            Err(e) => Err(e),
        }
    }

    fn from_byte(b: u8) -> (r: Option<Self>) {
        None
    }

    fn decode<D: Decoder<Context = Context>>(decoder: &mut D) -> (r: Result<Self, DecodeError>) {
        let ghost c = decoder.settings();
        let ghost s = decoder.pending();
        let ghost p0 = decoder.pending();
        let ghost q0 = decoder.claimed();
        let x0 = match T0::decode(decoder) {
            Ok(v) => v,
            Err(e) => return Err(e),
        };
        let ghost n0: nat = T0::decoding(c, q0, p0)->Ok_0.1;
        proof {
            assert(decoder.pending() =~= s.skip(n0 as int));
        }
        let ghost p1 = decoder.pending();
        let ghost q1 = decoder.claimed();
        let x1 = match T1::decode(decoder) {
            Ok(v) => v,
            Err(e) => return Err(e),
        };
        let ghost n1: nat = T1::decoding(c, q1, p1)->Ok_0.1;
        proof {
            assert(decoder.pending() =~= s.skip((n0 + n1) as int));
        }
        let ghost p2 = decoder.pending();
        let ghost q2 = decoder.claimed();
        let x2 = match T2::decode(decoder) {
            Ok(v) => v,
            Err(e) => return Err(e),
        };
        let ghost n2: nat = T2::decoding(c, q2, p2)->Ok_0.1;
        proof {
            assert(decoder.pending() =~= s.skip((n0 + n1 + n2) as int));
        }
        let ghost p3 = decoder.pending();
        let ghost q3 = decoder.claimed();
        let x3 = match T3::decode(decoder) {
            Ok(v) => v,
            Err(e) => return Err(e),
        };
        let ghost n3: nat = T3::decoding(c, q3, p3)->Ok_0.1;
        proof {
            assert(decoder.pending() =~= s.skip((n0 + n1 + n2 + n3) as int));
        }
        let ghost p4 = decoder.pending();
        let ghost q4 = decoder.claimed();
        let x4 = match T4::decode(decoder) {
            Ok(v) => v,
            Err(e) => return Err(e),
        };
        let ghost n4: nat = T4::decoding(c, q4, p4)->Ok_0.1;
        proof {
            assert(decoder.pending() =~= s.skip((n0 + n1 + n2 + n3 + n4) as int));
        }
        let ghost p5 = decoder.pending();
        let ghost q5 = decoder.claimed();
        let x5 = match T5::decode(decoder) {
            Ok(v) => v,
            Err(e) => return Err(e),
        };
        let ghost n5: nat = T5::decoding(c, q5, p5)->Ok_0.1;
        proof {
            assert(decoder.pending() =~= s.skip((n0 + n1 + n2 + n3 + n4 + n5) as int));
        }
        let ghost p6 = decoder.pending();
        let ghost q6 = decoder.claimed();
        let x6 = match T6::decode(decoder) {
            Ok(v) => v,
            Err(e) => return Err(e),
        };
        let ghost n6: nat = T6::decoding(c, q6, p6)->Ok_0.1;
        proof {
            assert(decoder.pending() =~= s.skip((n0 + n1 + n2 + n3 + n4 + n5 + n6) as int));
        }
        let ghost p7 = decoder.pending();
        let ghost q7 = decoder.claimed();
        let x7 = match T7::decode(decoder) {
            Ok(v) => v,
            Err(e) => return Err(e),
        };
        let ghost n7: nat = T7::decoding(c, q7, p7)->Ok_0.1;
        proof {
            assert(decoder.pending() =~= s.skip((n0 + n1 + n2 + n3 + n4 + n5 + n6 + n7) as int));
        }
        Ok((x0, x1, x2, x3, x4, x5, x6, x7))
    }
}

impl<'de, Context, T0: BorrowDecode<'de, Context>, T1: BorrowDecode<'de, Context>, T2: BorrowDecode<'de, Context>, T3: BorrowDecode<'de, Context>, T4: BorrowDecode<'de, Context>, T5: BorrowDecode<'de, Context>, T6: BorrowDecode<'de, Context>, T7: BorrowDecode<'de, Context>> BorrowDecode<'de, Context> for (T0, T1, T2, T3, T4, T5, T6, T7) {
    open spec fn borrow_decoding(c: Configuration, k: nat, s: Seq<u8>) -> Result<((T0::V, T1::V, T2::V, T3::V, T4::V, T5::V, T6::V, T7::V), nat, nat), DecodeError> {
        match T0::borrow_decoding(c, k, s) {
            Ok((v0, n0, k0)) => match T1::borrow_decoding(c, k0, s.skip((n0) as int)) {
                Ok((v1, n1, k1)) => match T2::borrow_decoding(c, k1, s.skip((n0 + n1) as int)) {
                    Ok((v2, n2, k2)) => match T3::borrow_decoding(c, k2, s.skip((n0 + n1 + n2) as int)) {
                        Ok((v3, n3, k3)) => match T4::borrow_decoding(c, k3, s.skip((n0 + n1 + n2 + n3) as int)) {
                            Ok((v4, n4, k4)) => match T5::borrow_decoding(c, k4, s.skip((n0 + n1 + n2 + n3 + n4) as int)) {
                                Ok((v5, n5, k5)) => match T6::borrow_decoding(c, k5, s.skip((n0 + n1 + n2 + n3 + n4 + n5) as int)) {
                                    Ok((v6, n6, k6)) => match T7::borrow_decoding(c, k6, s.skip((n0 + n1 + n2 + n3 + n4 + n5 + n6) as int)) {
                                        Ok((v7, n7, k7)) => Ok(((v0, v1, v2, v3, v4, v5, v6, v7), n0 + n1 + n2 + n3 + n4 + n5 + n6 + n7, k7)),
                                        Err(e) => Err(e),
                                    },
                                    Err(e) => Err(e),
                                },
                                Err(e) => Err(e),
                            },
                            Err(e) => Err(e),
                        },
                        Err(e) => Err(e),
                    },
                    Err(e) => Err(e),
                },
                Err(e) => Err(e),
            },
            Err(e) => Err(e),
        }
    }

    fn borrow_from_byte(b: u8) -> (r: Option<Self>) {
        None
    }

    fn borrow_decode<D: BorrowDecoder<'de, Context = Context>>(decoder: &mut D) -> (r: Result<Self, DecodeError>) {
        let ghost c = decoder.settings();
        let ghost s = decoder.pending();
        let ghost p0 = decoder.pending();
        let ghost q0 = decoder.claimed();
        let x0 = match T0::borrow_decode(decoder) {
            Ok(v) => v,
            Err(e) => return Err(e),
        };
        let ghost n0: nat = T0::borrow_decoding(c, q0, p0)->Ok_0.1;
        proof {
            assert(decoder.pending() =~= s.skip(n0 as int));
        }
        let ghost p1 = decoder.pending();
        let ghost q1 = decoder.claimed();
        let x1 = match T1::borrow_decode(decoder) {
            Ok(v) => v,
            Err(e) => return Err(e),
        };
        let ghost n1: nat = T1::borrow_decoding(c, q1, p1)->Ok_0.1;
        proof {
            assert(decoder.pending() =~= s.skip((n0 + n1) as int));
        }
        let ghost p2 = decoder.pending();
        let ghost q2 = decoder.claimed();
        let x2 = match T2::borrow_decode(decoder) {
            Ok(v) => v,
            Err(e) => return Err(e),
        };
        let ghost n2: nat = T2::borrow_decoding(c, q2, p2)->Ok_0.1;
        proof {
            assert(decoder.pending() =~= s.skip((n0 + n1 + n2) as int));
        }
        let ghost p3 = decoder.pending();
        let ghost q3 = decoder.claimed();
        let x3 = match T3::borrow_decode(decoder) {
            Ok(v) => v,
            Err(e) => return Err(e),
        };
        let ghost n3: nat = T3::borrow_decoding(c, q3, p3)->Ok_0.1;
        proof {
            assert(decoder.pending() =~= s.skip((n0 + n1 + n2 + n3) as int));
        }
        let ghost p4 = decoder.pending();
        let ghost q4 = decoder.claimed();
        let x4 = match T4::borrow_decode(decoder) {
            Ok(v) => v,
            Err(e) => return Err(e),
        };
        let ghost n4: nat = T4::borrow_decoding(c, q4, p4)->Ok_0.1;
        proof {
            assert(decoder.pending() =~= s.skip((n0 + n1 + n2 + n3 + n4) as int));
        }
        let ghost p5 = decoder.pending();
        let ghost q5 = decoder.claimed();
        let x5 = match T5::borrow_decode(decoder) {
            Ok(v) => v,
            Err(e) => return Err(e),
        };
        let ghost n5: nat = T5::borrow_decoding(c, q5, p5)->Ok_0.1;
        proof {
            assert(decoder.pending() =~= s.skip((n0 + n1 + n2 + n3 + n4 + n5) as int));
        }
        let ghost p6 = decoder.pending();
        let ghost q6 = decoder.claimed();
        let x6 = match T6::borrow_decode(decoder) {
            Ok(v) => v,
            Err(e) => return Err(e),
        };
        let ghost n6: nat = T6::borrow_decoding(c, q6, p6)->Ok_0.1;
        proof {
            assert(decoder.pending() =~= s.skip((n0 + n1 + n2 + n3 + n4 + n5 + n6) as int));
        }
        let ghost p7 = decoder.pending();
        let ghost q7 = decoder.claimed();
        let x7 = match T7::borrow_decode(decoder) {
            Ok(v) => v,
            Err(e) => return Err(e),
        };
        let ghost n7: nat = T7::borrow_decoding(c, q7, p7)->Ok_0.1;
        proof {
            assert(decoder.pending() =~= s.skip((n0 + n1 + n2 + n3 + n4 + n5 + n6 + n7) as int));
        }
        Ok((x0, x1, x2, x3, x4, x5, x6, x7))
    }
}

impl<T0: Model, T1: Model, T2: Model, T3: Model, T4: Model, T5: Model, T6: Model, T7: Model, T8: Model> Model for (T0, T1, T2, T3, T4, T5, T6, T7, T8) {
    type V = (T0::V, T1::V, T2::V, T3::V, T4::V, T5::V, T6::V, T7::V, T8::V);

    open spec fn model(&self) -> (T0::V, T1::V, T2::V, T3::V, T4::V, T5::V, T6::V, T7::V, T8::V) {
        (self.0.model(), self.1.model(), self.2.model(), self.3.model(), self.4.model(), self.5.model(), self.6.model(), self.7.model(), self.8.model())
    }

    open spec fn byte_sized() -> bool {
        false
    }

    fn is_byte_sized() -> (r: bool) {
        false
    }

    open spec fn byte_value(b: u8) -> (T0::V, T1::V, T2::V, T3::V, T4::V, T5::V, T6::V, T7::V, T8::V) {
        (T0::byte_value(b), T1::byte_value(b), T2::byte_value(b), T3::byte_value(b), T4::byte_value(b), T5::byte_value(b), T6::byte_value(b), T7::byte_value(b), T8::byte_value(b))
    }

    open spec fn byte_of(&self) -> u8 {
        0
    }

    fn to_byte(&self) -> (b: u8) {
        0
    }
}

impl<Context, T0: Decode<Context>, T1: Decode<Context>, T2: Decode<Context>, T3: Decode<Context>, T4: Decode<Context>, T5: Decode<Context>, T6: Decode<Context>, T7: Decode<Context>, T8: Decode<Context>> Decode<Context> for (T0, T1, T2, T3, T4, T5, T6, T7, T8) {
    open spec fn decoding(c: Configuration, k: nat, s: Seq<u8>) -> Result<((T0::V, T1::V, T2::V, T3::V, T4::V, T5::V, T6::V, T7::V, T8::V), nat, nat), DecodeError> {
        match T0::decoding(c, k, s) {
            Ok((v0, n0, k0)) => match T1::decoding(c, k0, s.skip((n0) as int)) {
                Ok((v1, n1, k1)) => match T2::decoding(c, k1, s.skip((n0 + n1) as int)) {
                    Ok((v2, n2, k2)) => match T3::decoding(c, k2, s.skip((n0 + n1 + n2) as int)) {
                        Ok((v3, n3, k3)) => match T4::decoding(c, k3, s.skip((n0 + n1 + n2 + n3) as int)) {
                            Ok((v4, n4, k4)) => match T5::decoding(c, k4, s.skip((n0 + n1 + n2 + n3 + n4) as int)) {
                                Ok((v5, n5, k5)) => match T6::decoding(c, k5, s.skip((n0 + n1 + n2 + n3 + n4 + n5) as int)) {
                                    Ok((v6, n6, k6)) => match T7::decoding(c, k6, s.skip((n0 + n1 + n2 + n3 + n4 + n5 + n6) as int)) {
                                        Ok((v7, n7, k7)) => match T8::decoding(c, k7, s.skip((n0 + n1 + n2 + n3 + n4 + n5 + n6 + n7) as int)) {
                                            Ok((v8, n8, k8)) => Ok(((v0, v1, v2, v3, v4, v5, v6, v7, v8), n0 + n1 + n2 + n3 + n4 + n5 + n6 + n7 + n8, k8)),
                                            Err(e) => Err(e),
                                        },
                                        Err(e) => Err(e),
                                    },
                                    Err(e) => Err(e),
                                },
                                Err(e) => Err(e),
                            },
                            Err(e) => Err(e),
                        },
                        Err(e) => Err(e),
                    },
                    Err(e) => Err(e),
                },
                Err(e) => Err(e),
            },
            Err(e) => Err(e),
        }
    }

    fn from_byte(b: u8) -> (r: Option<Self>) {
        None
    }

    fn decode<D: Decoder<Context = Context>>(decoder: &mut D) -> (r: Result<Self, DecodeError>) {
        let ghost c = decoder.settings();
        let ghost s = decoder.pending();
        let ghost p0 = decoder.pending();
        let ghost q0 = decoder.claimed();
        let x0 = match T0::decode(decoder) {
            Ok(v) => v,
            Err(e) => return Err(e),
        };
        let ghost n0: nat = T0::decoding(c, q0, p0)->Ok_0.1;
        proof {
            assert(decoder.pending() =~= s.skip(n0 as int));
        }
        let ghost p1 = decoder.pending();
        let ghost q1 = decoder.claimed();
        let x1 = match T1::decode(decoder) {
            Ok(v) => v,
            Err(e) => return Err(e),
        };
        let ghost n1: nat = T1::decoding(c, q1, p1)->Ok_0.1;
        proof {
            assert(decoder.pending() =~= s.skip((n0 + n1) as int));
        }
        let ghost p2 = decoder.pending();
        let ghost q2 = decoder.claimed();
        let x2 = match T2::decode(decoder) {
            Ok(v) => v,
            Err(e) => return Err(e),
        };
        let ghost n2: nat = T2::decoding(c, q2, p2)->Ok_0.1;
        proof {
            assert(decoder.pending() =~= s.skip((n0 + n1 + n2) as int));
        }
        let ghost p3 = decoder.pending();
        let ghost q3 = decoder.claimed();
        let x3 = match T3::decode(decoder) {
            Ok(v) => v,
            Err(e) => return Err(e),
        };
        let ghost n3: nat = T3::decoding(c, q3, p3)->Ok_0.1;
        proof {
            assert(decoder.pending() =~= s.skip((n0 + n1 + n2 + n3) as int));
        }
        let ghost p4 = decoder.pending();
        let ghost q4 = decoder.claimed();
        let x4 = match T4::decode(decoder) {
            Ok(v) => v,
            Err(e) => return Err(e),
        };
        let ghost n4: nat = T4::decoding(c, q4, p4)->Ok_0.1;
        proof {
            assert(decoder.pending() =~= s.skip((n0 + n1 + n2 + n3 + n4) as int));
        }
        let ghost p5 = decoder.pending();
        let ghost q5 = decoder.claimed();
        let x5 = match T5::decode(decoder) {
            Ok(v) => v,
            Err(e) => return Err(e),
        };
        let ghost n5: nat = T5::decoding(c, q5, p5)->Ok_0.1;
        proof {
            assert(decoder.pending() =~= s.skip((n0 + n1 + n2 + n3 + n4 + n5) as int));
        }
        let ghost p6 = decoder.pending();
        let ghost q6 = decoder.claimed();
        let x6 = match T6::decode(decoder) {
            Ok(v) => v,
            Err(e) => return Err(e),
        };
        let ghost n6: nat = T6::decoding(c, q6, p6)->Ok_0.1;
        proof {
            assert(decoder.pending() =~= s.skip((n0 + n1 + n2 + n3 + n4 + n5 + n6) as int));
        }
        let ghost p7 = decoder.pending();
        let ghost q7 = decoder.claimed();
        let x7 = match T7::decode(decoder) {
            Ok(v) => v,
            Err(e) => return Err(e),
        };
        let ghost n7: nat = T7::decoding(c, q7, p7)->Ok_0.1;
        proof {
            assert(decoder.pending() =~= s.skip((n0 + n1 + n2 + n3 + n4 + n5 + n6 + n7) as int));
        }
        let ghost p8 = decoder.pending();
        let ghost q8 = decoder.claimed();
        let x8 = match T8::decode(decoder) {
            Ok(v) => v,
            Err(e) => return Err(e),
        };
        let ghost n8: nat = T8::decoding(c, q8, p8)->Ok_0.1;
        proof {
            assert(decoder.pending() =~= s.skip((n0 + n1 + n2 + n3 + n4 + n5 + n6 + n7 + n8) as int));
        }
        Ok((x0, x1, x2, x3, x4, x5, x6, x7, x8))
    }
}

impl<'de, Context, T0: BorrowDecode<'de, Context>, T1: BorrowDecode<'de, Context>, T2: BorrowDecode<'de, Context>, T3: BorrowDecode<'de, Context>, T4: BorrowDecode<'de, Context>, T5: BorrowDecode<'de, Context>, T6: BorrowDecode<'de, Context>, T7: BorrowDecode<'de, Context>, T8: BorrowDecode<'de, Context>> BorrowDecode<'de, Context> for (T0, T1, T2, T3, T4, T5, T6, T7, T8) {
    open spec fn borrow_decoding(c: Configuration, k: nat, s: Seq<u8>) -> Result<((T0::V, T1::V, T2::V, T3::V, T4::V, T5::V, T6::V, T7::V, T8::V), nat, nat), DecodeError> {
        match T0::borrow_decoding(c, k, s) {
            Ok((v0, n0, k0)) => match T1::borrow_decoding(c, k0, s.skip((n0) as int)) {
                Ok((v1, n1, k1)) => match T2::borrow_decoding(c, k1, s.skip((n0 + n1) as int)) {
                    Ok((v2, n2, k2)) => match T3::borrow_decoding(c, k2, s.skip((n0 + n1 + n2) as int)) {
                        Ok((v3, n3, k3)) => match T4::borrow_decoding(c, k3, s.skip((n0 + n1 + n2 + n3) as int)) {
                            Ok((v4, n4, k4)) => match T5::borrow_decoding(c, k4, s.skip((n0 + n1 + n2 + n3 + n4) as int)) {
                                Ok((v5, n5, k5)) => match T6::borrow_decoding(c, k5, s.skip((n0 + n1 + n2 + n3 + n4 + n5) as int)) {
                                    Ok((v6, n6, k6)) => match T7::borrow_decoding(c, k6, s.skip((n0 + n1 + n2 + n3 + n4 + n5 + n6) as int)) {
                                        Ok((v7, n7, k7)) => match T8::borrow_decoding(c, k7, s.skip((n0 + n1 + n2 + n3 + n4 + n5 + n6 + n7) as int)) {
                                            Ok((v8, n8, k8)) => Ok(((v0, v1, v2, v3, v4, v5, v6, v7, v8), n0 + n1 + n2 + n3 + n4 + n5 + n6 + n7 + n8, k8)),
                                            Err(e) => Err(e),
                                        },
                                        Err(e) => Err(e),
                                    },
                                    Err(e) => Err(e),
                                },
                                Err(e) => Err(e),
                            },
                            Err(e) => Err(e),
                        },
                        Err(e) => Err(e),
                    },
                    Err(e) => Err(e),
                },
                Err(e) => Err(e),
            },
            Err(e) => Err(e),
        }
    }

    fn borrow_from_byte(b: u8) -> (r: Option<Self>) {
        None
    }

    fn borrow_decode<D: BorrowDecoder<'de, Context = Context>>(decoder: &mut D) -> (r: Result<Self, DecodeError>) {
        let ghost c = decoder.settings();
        let ghost s = decoder.pending();
        let ghost p0 = decoder.pending();
        let ghost q0 = decoder.claimed();
        let x0 = match T0::borrow_decode(decoder) {
            Ok(v) => v,
            Err(e) => return Err(e),
        };
        let ghost n0: nat = T0::borrow_decoding(c, q0, p0)->Ok_0.1;
        proof {
            assert(decoder.pending() =~= s.skip(n0 as int));
        }
        let ghost p1 = decoder.pending();
        let ghost q1 = decoder.claimed();
        let x1 = match T1::borrow_decode(decoder) {
            Ok(v) => v,
            Err(e) => return Err(e),
        };
        let ghost n1: nat = T1::borrow_decoding(c, q1, p1)->Ok_0.1;
        proof {
            assert(decoder.pending() =~= s.skip((n0 + n1) as int));
        }
        let ghost p2 = decoder.pending();
        let ghost q2 = decoder.claimed();
        let x2 = match T2::borrow_decode(decoder) {
            Ok(v) => v,
            Err(e) => return Err(e),
        };
        let ghost n2: nat = T2::borrow_decoding(c, q2, p2)->Ok_0.1;
        proof {
            assert(decoder.pending() =~= s.skip((n0 + n1 + n2) as int));
        }
        let ghost p3 = decoder.pending();
        let ghost q3 = decoder.claimed();
        let x3 = match T3::borrow_decode(decoder) {
            Ok(v) => v,
            Err(e) => return Err(e),
        };
        let ghost n3: nat = T3::borrow_decoding(c, q3, p3)->Ok_0.1;
        proof {
            assert(decoder.pending() =~= s.skip((n0 + n1 + n2 + n3) as int));
        }
        let ghost p4 = decoder.pending();
        let ghost q4 = decoder.claimed();
        let x4 = match T4::borrow_decode(decoder) {
            Ok(v) => v,
            Err(e) => return Err(e),
        };
        let ghost n4: nat = T4::borrow_decoding(c, q4, p4)->Ok_0.1;
        proof {
            assert(decoder.pending() =~= s.skip((n0 + n1 + n2 + n3 + n4) as int));
        }
        let ghost p5 = decoder.pending();
        let ghost q5 = decoder.claimed();
        let x5 = match T5::borrow_decode(decoder) {
            Ok(v) => v,
            Err(e) => return Err(e),
        };
        let ghost n5: nat = T5::borrow_decoding(c, q5, p5)->Ok_0.1;
        proof {
            assert(decoder.pending() =~= s.skip((n0 + n1 + n2 + n3 + n4 + n5) as int));
        }
        let ghost p6 = decoder.pending();
        let ghost q6 = decoder.claimed();
        let x6 = match T6::borrow_decode(decoder) {
            Ok(v) => v,
            Err(e) => return Err(e),
        };
        let ghost n6: nat = T6::borrow_decoding(c, q6, p6)->Ok_0.1;
        proof {
            assert(decoder.pending() =~= s.skip((n0 + n1 + n2 + n3 + n4 + n5 + n6) as int));
        }
        let ghost p7 = decoder.pending();
        let ghost q7 = decoder.claimed();
        let x7 = match T7::borrow_decode(decoder) {
            Ok(v) => v,
            Err(e) => return Err(e),
        };
        let ghost n7: nat = T7::borrow_decoding(c, q7, p7)->Ok_0.1;
        proof {
            assert(decoder.pending() =~= s.skip((n0 + n1 + n2 + n3 + n4 + n5 + n6 + n7) as int));
        }
        let ghost p8 = decoder.pending();
        let ghost q8 = decoder.claimed();
        let x8 = match T8::borrow_decode(decoder) {
            Ok(v) => v,
            Err(e) => return Err(e),
        };
        let ghost n8: nat = T8::borrow_decoding(c, q8, p8)->Ok_0.1;
        proof {
            assert(decoder.pending() =~= s.skip((n0 + n1 + n2 + n3 + n4 + n5 + n6 + n7 + n8) as int));
        }
        Ok((x0, x1, x2, x3, x4, x5, x6, x7, x8))
    }
}

impl<T0: Model, T1: Model, T2: Model, T3: Model, T4: Model, T5: Model, T6: Model, T7: Model, T8: Model, T9: Model> Model for (T0, T1, T2, T3, T4, T5, T6, T7, T8, T9) {
    type V = (T0::V, T1::V, T2::V, T3::V, T4::V, T5::V, T6::V, T7::V, T8::V, T9::V);

    open spec fn model(&self) -> (T0::V, T1::V, T2::V, T3::V, T4::V, T5::V, T6::V, T7::V, T8::V, T9::V) {
        (self.0.model(), self.1.model(), self.2.model(), self.3.model(), self.4.model(), self.5.model(), self.6.model(), self.7.model(), self.8.model(), self.9.model())
    }

    open spec fn byte_sized() -> bool {
        false
    }

    fn is_byte_sized() -> (r: bool) {
        false
    }

    open spec fn byte_value(b: u8) -> (T0::V, T1::V, T2::V, T3::V, T4::V, T5::V, T6::V, T7::V, T8::V, T9::V) {
        (T0::byte_value(b), T1::byte_value(b), T2::byte_value(b), T3::byte_value(b), T4::byte_value(b), T5::byte_value(b), T6::byte_value(b), T7::byte_value(b), T8::byte_value(b), T9::byte_value(b))
    }

    open spec fn byte_of(&self) -> u8 {
        0
    }

    fn to_byte(&self) -> (b: u8) {
        0
    }
}

impl<Context, T0: Decode<Context>, T1: Decode<Context>, T2: Decode<Context>, T3: Decode<Context>, T4: Decode<Context>, T5: Decode<Context>, T6: Decode<Context>, T7: Decode<Context>, T8: Decode<Context>, T9: Decode<Context>> Decode<Context> for (T0, T1, T2, T3, T4, T5, T6, T7, T8, T9) {
    open spec fn decoding(c: Configuration, k: nat, s: Seq<u8>) -> Result<((T0::V, T1::V, T2::V, T3::V, T4::V, T5::V, T6::V, T7::V, T8::V, T9::V), nat, nat), DecodeError> {
        match T0::decoding(c, k, s) {
            Ok((v0, n0, k0)) => match T1::decoding(c, k0, s.skip((n0) as int)) {
                Ok((v1, n1, k1)) => match T2::decoding(c, k1, s.skip((n0 + n1) as int)) {
                    Ok((v2, n2, k2)) => match T3::decoding(c, k2, s.skip((n0 + n1 + n2) as int)) {
                        Ok((v3, n3, k3)) => match T4::decoding(c, k3, s.skip((n0 + n1 + n2 + n3) as int)) {
                            Ok((v4, n4, k4)) => match T5::decoding(c, k4, s.skip((n0 + n1 + n2 + n3 + n4) as int)) {
                                Ok((v5, n5, k5)) => match T6::decoding(c, k5, s.skip((n0 + n1 + n2 + n3 + n4 + n5) as int)) {
                                    Ok((v6, n6, k6)) => match T7::decoding(c, k6, s.skip((n0 + n1 + n2 + n3 + n4 + n5 + n6) as int)) {
                                        Ok((v7, n7, k7)) => match T8::decoding(c, k7, s.skip((n0 + n1 + n2 + n3 + n4 + n5 + n6 + n7) as int)) {
                                            Ok((v8, n8, k8)) => match T9::decoding(c, k8, s.skip((n0 + n1 + n2 + n3 + n4 + n5 + n6 + n7 + n8) as int)) {
                                                Ok((v9, n9, k9)) => Ok(((v0, v1, v2, v3, v4, v5, v6, v7, v8, v9), n0 + n1 + n2 + n3 + n4 + n5 + n6 + n7 + n8 + n9, k9)),
                                                Err(e) => Err(e),
                                            },
                                            Err(e) => Err(e),
                                        },
                                        Err(e) => Err(e),
                                    },
                                    Err(e) => Err(e),
                                },
                                Err(e) => Err(e),
                            },
                            Err(e) => Err(e),
                        },
                        Err(e) => Err(e),
                    },
                    Err(e) => Err(e),
                },
                Err(e) => Err(e),
            },
            Err(e) => Err(e),
        }
    }

    fn from_byte(b: u8) -> (r: Option<Self>) {
        None
    }

    fn decode<D: Decoder<Context = Context>>(decoder: &mut D) -> (r: Result<Self, DecodeError>) {
        let ghost c = decoder.settings();
        let ghost s = decoder.pending();
        let ghost p0 = decoder.pending();
        let ghost q0 = decoder.claimed();
        let x0 = match T0::decode(decoder) {
            Ok(v) => v,
            Err(e) => return Err(e),
        };
        let ghost n0: nat = T0::decoding(c, q0, p0)->Ok_0.1;
        proof {
            assert(decoder.pending() =~= s.skip(n0 as int));
        }
        let ghost p1 = decoder.pending();
        let ghost q1 = decoder.claimed();
        let x1 = match T1::decode(decoder) {
            Ok(v) => v,
            Err(e) => return Err(e),
        };
        let ghost n1: nat = T1::decoding(c, q1, p1)->Ok_0.1;
        proof {
            assert(decoder.pending() =~= s.skip((n0 + n1) as int));
        }
        let ghost p2 = decoder.pending();
        let ghost q2 = decoder.claimed();
        let x2 = match T2::decode(decoder) {
            Ok(v) => v,
            Err(e) => return Err(e),
        };
        let ghost n2: nat = T2::decoding(c, q2, p2)->Ok_0.1;
        proof {
            assert(decoder.pending() =~= s.skip((n0 + n1 + n2) as int));
        }
        let ghost p3 = decoder.pending();
        let ghost q3 = decoder.claimed();
        let x3 = match T3::decode(decoder) {
            Ok(v) => v,
            Err(e) => return Err(e),
        };
        let ghost n3: nat = T3::decoding(c, q3, p3)->Ok_0.1;
        proof {
            assert(decoder.pending() =~= s.skip((n0 + n1 + n2 + n3) as int));
        }
        let ghost p4 = decoder.pending();
        let ghost q4 = decoder.claimed();
        let x4 = match T4::decode(decoder) {
            Ok(v) => v,
            Err(e) => return Err(e),
        };
        let ghost n4: nat = T4::decoding(c, q4, p4)->Ok_0.1;
        proof {
            assert(decoder.pending() =~= s.skip((n0 + n1 + n2 + n3 + n4) as int));
        }
        let ghost p5 = decoder.pending();
        let ghost q5 = decoder.claimed();
        let x5 = match T5::decode(decoder) {
            Ok(v) => v,
            Err(e) => return Err(e),
        };
        let ghost n5: nat = T5::decoding(c, q5, p5)->Ok_0.1;
        proof {
            assert(decoder.pending() =~= s.skip((n0 + n1 + n2 + n3 + n4 + n5) as int));
        }
        let ghost p6 = decoder.pending();
        let ghost q6 = decoder.claimed();
        let x6 = match T6::decode(decoder) {
            Ok(v) => v,
            Err(e) => return Err(e),
        };
        let ghost n6: nat = T6::decoding(c, q6, p6)->Ok_0.1;
        proof {
            assert(decoder.pending() =~= s.skip((n0 + n1 + n2 + n3 + n4 + n5 + n6) as int));
        }
        let ghost p7 = decoder.pending();
        let ghost q7 = decoder.claimed();
        let x7 = match T7::decode(decoder) {
            Ok(v) => v,
            Err(e) => return Err(e),
        };
        let ghost n7: nat = T7::decoding(c, q7, p7)->Ok_0.1;
        proof {
            assert(decoder.pending() =~= s.skip((n0 + n1 + n2 + n3 + n4 + n5 + n6 + n7) as int));
        }
        let ghost p8 = decoder.pending();
        let ghost q8 = decoder.claimed();
        let x8 = match T8::decode(decoder) {
            Ok(v) => v,
            Err(e) => return Err(e),
        };
        let ghost n8: nat = T8::decoding(c, q8, p8)->Ok_0.1;
        proof {
            assert(decoder.pending() =~= s.skip((n0 + n1 + n2 + n3 + n4 + n5 + n6 + n7 + n8) as int));
        }
        let ghost p9 = decoder.pending();
        let ghost q9 = decoder.claimed();
        let x9 = match T9::decode(decoder) {
            Ok(v) => v,
            Err(e) => return Err(e),
        };
        let ghost n9: nat = T9::decoding(c, q9, p9)->Ok_0.1;
        proof {
            assert(decoder.pending() =~= s.skip((n0 + n1 + n2 + n3 + n4 + n5 + n6 + n7 + n8 + n9) as int));
        }
        Ok((x0, x1, x2, x3, x4, x5, x6, x7, x8, x9))
    }
}

impl<'de, Context, T0: BorrowDecode<'de, Context>, T1: BorrowDecode<'de, Context>, T2: BorrowDecode<'de, Context>, T3: BorrowDecode<'de, Context>, T4: BorrowDecode<'de, Context>, T5: BorrowDecode<'de, Context>, T6: BorrowDecode<'de, Context>, T7: BorrowDecode<'de, Context>, T8: BorrowDecode<'de, Context>, T9: BorrowDecode<'de, Context>> BorrowDecode<'de, Context> for (T0, T1, T2, T3, T4, T5, T6, T7, T8, T9) {
    open spec fn borrow_decoding(c: Configuration, k: nat, s: Seq<u8>) -> Result<((T0::V, T1::V, T2::V, T3::V, T4::V, T5::V, T6::V, T7::V, T8::V, T9::V), nat, nat), DecodeError> {
        match T0::borrow_decoding(c, k, s) {
            Ok((v0, n0, k0)) => match T1::borrow_decoding(c, k0, s.skip((n0) as int)) {
                Ok((v1, n1, k1)) => match T2::borrow_decoding(c, k1, s.skip((n0 + n1) as int)) {
                    Ok((v2, n2, k2)) => match T3::borrow_decoding(c, k2, s.skip((n0 + n1 + n2) as int)) {
                        Ok((v3, n3, k3)) => match T4::borrow_decoding(c, k3, s.skip((n0 + n1 + n2 + n3) as int)) {
                            Ok((v4, n4, k4)) => match T5::borrow_decoding(c, k4, s.skip((n0 + n1 + n2 + n3 + n4) as int)) {
                                Ok((v5, n5, k5)) => match T6::borrow_decoding(c, k5, s.skip((n0 + n1 + n2 + n3 + n4 + n5) as int)) {
                                    Ok((v6, n6, k6)) => match T7::borrow_decoding(c, k6, s.skip((n0 + n1 + n2 + n3 + n4 + n5 + n6) as int)) {
                                        Ok((v7, n7, k7)) => match T8::borrow_decoding(c, k7, s.skip((n0 + n1 + n2 + n3 + n4 + n5 + n6 + n7) as int)) {
                                            Ok((v8, n8, k8)) => match T9::borrow_decoding(c, k8, s.skip((n0 + n1 + n2 + n3 + n4 + n5 + n6 + n7 + n8) as int)) {
                                                Ok((v9, n9, k9)) => Ok(((v0, v1, v2, v3, v4, v5, v6, v7, v8, v9), n0 + n1 + n2 + n3 + n4 + n5 + n6 + n7 + n8 + n9, k9)),
                                                Err(e) => Err(e),
                                            },
                                            Err(e) => Err(e),
                                        },
                                        Err(e) => Err(e),
                                    },
                                    Err(e) => Err(e),
                                },
                                Err(e) => Err(e),
                            },
                            Err(e) => Err(e),
                        },
                        Err(e) => Err(e),
                    },
                    Err(e) => Err(e),
                },
                Err(e) => Err(e),
            },
            Err(e) => Err(e),
        }
    }

    fn borrow_from_byte(b: u8) -> (r: Option<Self>) {
        None
    }

    fn borrow_decode<D: BorrowDecoder<'de, Context = Context>>(decoder: &mut D) -> (r: Result<Self, DecodeError>) {
        let ghost c = decoder.settings();
        let ghost s = decoder.pending();
        let ghost p0 = decoder.pending();
        let ghost q0 = decoder.claimed();
        let x0 = match T0::borrow_decode(decoder) {
            Ok(v) => v,
            Err(e) => return Err(e),
        };
        let ghost n0: nat = T0::borrow_decoding(c, q0, p0)->Ok_0.1;
        proof {
            assert(decoder.pending() =~= s.skip(n0 as int));
        }
        let ghost p1 = decoder.pending();
        let ghost q1 = decoder.claimed();
        let x1 = match T1::borrow_decode(decoder) {
            Ok(v) => v,
            Err(e) => return Err(e),
        };
        let ghost n1: nat = T1::borrow_decoding(c, q1, p1)->Ok_0.1;
        proof {
            assert(decoder.pending() =~= s.skip((n0 + n1) as int));
        }
        let ghost p2 = decoder.pending();
        let ghost q2 = decoder.claimed();
        let x2 = match T2::borrow_decode(decoder) {
            Ok(v) => v,
            Err(e) => return Err(e),
        };
        let ghost n2: nat = T2::borrow_decoding(c, q2, p2)->Ok_0.1;
        proof {
            assert(decoder.pending() =~= s.skip((n0 + n1 + n2) as int));
        }
        let ghost p3 = decoder.pending();
        let ghost q3 = decoder.claimed();
        let x3 = match T3::borrow_decode(decoder) {
            Ok(v) => v,
            Err(e) => return Err(e),
        };
        let ghost n3: nat = T3::borrow_decoding(c, q3, p3)->Ok_0.1;
        proof {
            assert(decoder.pending() =~= s.skip((n0 + n1 + n2 + n3) as int));
        }
        let ghost p4 = decoder.pending();
        let ghost q4 = decoder.claimed();
        let x4 = match T4::borrow_decode(decoder) {
            Ok(v) => v,
            Err(e) => return Err(e),
        };
        let ghost n4: nat = T4::borrow_decoding(c, q4, p4)->Ok_0.1;
        proof {
            assert(decoder.pending() =~= s.skip((n0 + n1 + n2 + n3 + n4) as int));
        }
        let ghost p5 = decoder.pending();
        let ghost q5 = decoder.claimed();
        let x5 = match T5::borrow_decode(decoder) {
            Ok(v) => v,
            Err(e) => return Err(e),
        };
        let ghost n5: nat = T5::borrow_decoding(c, q5, p5)->Ok_0.1;
        proof {
            assert(decoder.pending() =~= s.skip((n0 + n1 + n2 + n3 + n4 + n5) as int));
        }
        let ghost p6 = decoder.pending();
        let ghost q6 = decoder.claimed();
        let x6 = match T6::borrow_decode(decoder) {
            Ok(v) => v,
            Err(e) => return Err(e),
        };
        let ghost n6: nat = T6::borrow_decoding(c, q6, p6)->Ok_0.1;
        proof {
            assert(decoder.pending() =~= s.skip((n0 + n1 + n2 + n3 + n4 + n5 + n6) as int));
        }
        let ghost p7 = decoder.pending();
        let ghost q7 = decoder.claimed();
        let x7 = match T7::borrow_decode(decoder) {
            Ok(v) => v,
            Err(e) => return Err(e),
        };
        let ghost n7: nat = T7::borrow_decoding(c, q7, p7)->Ok_0.1;
        proof {
            assert(decoder.pending() =~= s.skip((n0 + n1 + n2 + n3 + n4 + n5 + n6 + n7) as int));
        }
        let ghost p8 = decoder.pending();
        let ghost q8 = decoder.claimed();
        let x8 = match T8::borrow_decode(decoder) {
            Ok(v) => v,
            Err(e) => return Err(e),
        };
        let ghost n8: nat = T8::borrow_decoding(c, q8, p8)->Ok_0.1;
        proof {
            assert(decoder.pending() =~= s.skip((n0 + n1 + n2 + n3 + n4 + n5 + n6 + n7 + n8) as int));
        }
        let ghost p9 = decoder.pending();
        let ghost q9 = decoder.claimed();
        let x9 = match T9::borrow_decode(decoder) {
            Ok(v) => v,
            Err(e) => return Err(e),
        };
        let ghost n9: nat = T9::borrow_decoding(c, q9, p9)->Ok_0.1;
        proof {
            assert(decoder.pending() =~= s.skip((n0 + n1 + n2 + n3 + n4 + n5 + n6 + n7 + n8 + n9) as int));
        }
        Ok((x0, x1, x2, x3, x4, x5, x6, x7, x8, x9))
    }
}

impl<T0: Model, T1: Model, T2: Model, T3: Model, T4: Model, T5: Model, T6: Model, T7: Model, T8: Model, T9: Model, T10: Model> Model for (T0, T1, T2, T3, T4, T5, T6, T7, T8, T9, T10) {
    type V = (T0::V, T1::V, T2::V, T3::V, T4::V, T5::V, T6::V, T7::V, T8::V, T9::V, T10::V);

    open spec fn model(&self) -> (T0::V, T1::V, T2::V, T3::V, T4::V, T5::V, T6::V, T7::V, T8::V, T9::V, T10::V) {
        (self.0.model(), self.1.model(), self.2.model(), self.3.model(), self.4.model(), self.5.model(), self.6.model(), self.7.model(), self.8.model(), self.9.model(), self.10.model())
    }

    open spec fn byte_sized() -> bool {
        false
    }

    fn is_byte_sized() -> (r: bool) {
        false
    }

    open spec fn byte_value(b: u8) -> (T0::V, T1::V, T2::V, T3::V, T4::V, T5::V, T6::V, T7::V, T8::V, T9::V, T10::V) {
        (T0::byte_value(b), T1::byte_value(b), T2::byte_value(b), T3::byte_value(b), T4::byte_value(b), T5::byte_value(b), T6::byte_value(b), T7::byte_value(b), T8::byte_value(b), T9::byte_value(b), T10::byte_value(b))
    }

    open spec fn byte_of(&self) -> u8 {
        0
    }

    fn to_byte(&self) -> (b: u8) {
        0
    }
}

impl<Context, T0: Decode<Context>, T1: Decode<Context>, T2: Decode<Context>, T3: Decode<Context>, T4: Decode<Context>, T5: Decode<Context>, T6: Decode<Context>, T7: Decode<Context>, T8: Decode<Context>, T9: Decode<Context>, T10: Decode<Context>> Decode<Context> for (T0, T1, T2, T3, T4, T5, T6, T7, T8, T9, T10) {
    open spec fn decoding(c: Configuration, k: nat, s: Seq<u8>) -> Result<((T0::V, T1::V, T2::V, T3::V, T4::V, T5::V, T6::V, T7::V, T8::V, T9::V, T10::V), nat, nat), DecodeError> {
        match T0::decoding(c, k, s) {
            Ok((v0, n0, k0)) => match T1::decoding(c, k0, s.skip((n0) as int)) {
                Ok((v1, n1, k1)) => match T2::decoding(c, k1, s.skip((n0 + n1) as int)) {
                    Ok((v2, n2, k2)) => match T3::decoding(c, k2, s.skip((n0 + n1 + n2) as int)) {
                        Ok((v3, n3, k3)) => match T4::decoding(c, k3, s.skip((n0 + n1 + n2 + n3) as int)) {
                            Ok((v4, n4, k4)) => match T5::decoding(c, k4, s.skip((n0 + n1 + n2 + n3 + n4) as int)) {
                                Ok((v5, n5, k5)) => match T6::decoding(c, k5, s.skip((n0 + n1 + n2 + n3 + n4 + n5) as int)) {
                                    Ok((v6, n6, k6)) => match T7::decoding(c, k6, s.skip((n0 + n1 + n2 + n3 + n4 + n5 + n6) as int)) {
                                        Ok((v7, n7, k7)) => match T8::decoding(c, k7, s.skip((n0 + n1 + n2 + n3 + n4 + n5 + n6 + n7) as int)) {
                                            Ok((v8, n8, k8)) => match T9::decoding(c, k8, s.skip((n0 + n1 + n2 + n3 + n4 + n5 + n6 + n7 + n8) as int)) {
                                                Ok((v9, n9, k9)) => match T10::decoding(c, k9, s.skip((n0 + n1 + n2 + n3 + n4 + n5 + n6 + n7 + n8 + n9) as int)) {
                                                    Ok((v10, n10, k10)) => Ok(((v0, v1, v2, v3, v4, v5, v6, v7, v8, v9, v10), n0 + n1 + n2 + n3 + n4 + n5 + n6 + n7 + n8 + n9 + n10, k10)),
                                                    Err(e) => Err(e),
                                                },
                                                Err(e) => Err(e),
                                            },
                                            Err(e) => Err(e),
                                        },
                                        Err(e) => Err(e),
                                    },
                                    Err(e) => Err(e),
                                },
                                Err(e) => Err(e),
                            },
                            Err(e) => Err(e),
                        },
                        Err(e) => Err(e),
                    },
                    Err(e) => Err(e),
                },
                Err(e) => Err(e),
            },
            Err(e) => Err(e),
        }
    }

    fn from_byte(b: u8) -> (r: Option<Self>) {
        None
    }

    fn decode<D: Decoder<Context = Context>>(decoder: &mut D) -> (r: Result<Self, DecodeError>) {
        let ghost c = decoder.settings();
        let ghost s = decoder.pending();
        let ghost p0 = decoder.pending();
        let ghost q0 = decoder.claimed();
        let x0 = match T0::decode(decoder) {
            Ok(v) => v,
            Err(e) => return Err(e),
        };
        let ghost n0: nat = T0::decoding(c, q0, p0)->Ok_0.1;
        proof {
            assert(decoder.pending() =~= s.skip(n0 as int));
        }
        let ghost p1 = decoder.pending();
        let ghost q1 = decoder.claimed();
        let x1 = match T1::decode(decoder) {
            Ok(v) => v,
            Err(e) => return Err(e),
        };
        let ghost n1: nat = T1::decoding(c, q1, p1)->Ok_0.1;
        proof {
            assert(decoder.pending() =~= s.skip((n0 + n1) as int));
        }
        let ghost p2 = decoder.pending();
        let ghost q2 = decoder.claimed();
        let x2 = match T2::decode(decoder) {
            Ok(v) => v,
            Err(e) => return Err(e),
        };
        let ghost n2: nat = T2::decoding(c, q2, p2)->Ok_0.1;
        proof {
            assert(decoder.pending() =~= s.skip((n0 + n1 + n2) as int));
        }
        let ghost p3 = decoder.pending();
        let ghost q3 = decoder.claimed();
        let x3 = match T3::decode(decoder) {
            Ok(v) => v,
            Err(e) => return Err(e),
        };
        let ghost n3: nat = T3::decoding(c, q3, p3)->Ok_0.1;
        proof {
            assert(decoder.pending() =~= s.skip((n0 + n1 + n2 + n3) as int));
        }
        let ghost p4 = decoder.pending();
        let ghost q4 = decoder.claimed();
        let x4 = match T4::decode(decoder) {
            Ok(v) => v,
            Err(e) => return Err(e),
        };
        let ghost n4: nat = T4::decoding(c, q4, p4)->Ok_0.1;
        proof {
            assert(decoder.pending() =~= s.skip((n0 + n1 + n2 + n3 + n4) as int));
        }
        let ghost p5 = decoder.pending();
        let ghost q5 = decoder.claimed();
        let x5 = match T5::decode(decoder) {
            Ok(v) => v,
            Err(e) => return Err(e),
        };
        let ghost n5: nat = T5::decoding(c, q5, p5)->Ok_0.1;
        proof {
            assert(decoder.pending() =~= s.skip((n0 + n1 + n2 + n3 + n4 + n5) as int));
        }
        let ghost p6 = decoder.pending();
        let ghost q6 = decoder.claimed();
        let x6 = match T6::decode(decoder) {
            Ok(v) => v,
            Err(e) => return Err(e),
        };
        let ghost n6: nat = T6::decoding(c, q6, p6)->Ok_0.1;
        proof {
            assert(decoder.pending() =~= s.skip((n0 + n1 + n2 + n3 + n4 + n5 + n6) as int));
        }
        let ghost p7 = decoder.pending();
        let ghost q7 = decoder.claimed();
        let x7 = match T7::decode(decoder) {
            Ok(v) => v,
            Err(e) => return Err(e),
        };
        let ghost n7: nat = T7::decoding(c, q7, p7)->Ok_0.1;
        proof {
            assert(decoder.pending() =~= s.skip((n0 + n1 + n2 + n3 + n4 + n5 + n6 + n7) as int));
        }
        let ghost p8 = decoder.pending();
        let ghost q8 = decoder.claimed();
        let x8 = match T8::decode(decoder) {
            Ok(v) => v,
            Err(e) => return Err(e),
        };
        let ghost n8: nat = T8::decoding(c, q8, p8)->Ok_0.1;
        proof {
            assert(decoder.pending() =~= s.skip((n0 + n1 + n2 + n3 + n4 + n5 + n6 + n7 + n8) as int));
        }
        let ghost p9 = decoder.pending();
        let ghost q9 = decoder.claimed();
        let x9 = match T9::decode(decoder) {
            Ok(v) => v,
            Err(e) => return Err(e),
        };
        let ghost n9: nat = T9::decoding(c, q9, p9)->Ok_0.1;
        proof {
            assert(decoder.pending() =~= s.skip((n0 + n1 + n2 + n3 + n4 + n5 + n6 + n7 + n8 + n9) as int));
        }
        let ghost p10 = decoder.pending();
        let ghost q10 = decoder.claimed();
        let x10 = match T10::decode(decoder) {
            Ok(v) => v,
            Err(e) => return Err(e),
        };
        let ghost n10: nat = T10::decoding(c, q10, p10)->Ok_0.1;
        proof {
            assert(decoder.pending() =~= s.skip((n0 + n1 + n2 + n3 + n4 + n5 + n6 + n7 + n8 + n9 + n10) as int));
        }
        Ok((x0, x1, x2, x3, x4, x5, x6, x7, x8, x9, x10))
    }
}

impl<'de, Context, T0: BorrowDecode<'de, Context>, T1: BorrowDecode<'de, Context>, T2: BorrowDecode<'de, Context>, T3: BorrowDecode<'de, Context>, T4: BorrowDecode<'de, Context>, T5: BorrowDecode<'de, Context>, T6: BorrowDecode<'de, Context>, T7: BorrowDecode<'de, Context>, T8: BorrowDecode<'de, Context>, T9: BorrowDecode<'de, Context>, T10: BorrowDecode<'de, Context>> BorrowDecode<'de, Context> for (T0, T1, T2, T3, T4, T5, T6, T7, T8, T9, T10) {
    open spec fn borrow_decoding(c: Configuration, k: nat, s: Seq<u8>) -> Result<((T0::V, T1::V, T2::V, T3::V, T4::V, T5::V, T6::V, T7::V, T8::V, T9::V, T10::V), nat, nat), DecodeError> {
        match T0::borrow_decoding(c, k, s) {
            Ok((v0, n0, k0)) => match T1::borrow_decoding(c, k0, s.skip((n0) as int)) {
                Ok((v1, n1, k1)) => match T2::borrow_decoding(c, k1, s.skip((n0 + n1) as int)) {
                    Ok((v2, n2, k2)) => match T3::borrow_decoding(c, k2, s.skip((n0 + n1 + n2) as int)) {
                        Ok((v3, n3, k3)) => match T4::borrow_decoding(c, k3, s.skip((n0 + n1 + n2 + n3) as int)) {
                            Ok((v4, n4, k4)) => match T5::borrow_decoding(c, k4, s.skip((n0 + n1 + n2 + n3 + n4) as int)) {
                                Ok((v5, n5, k5)) => match T6::borrow_decoding(c, k5, s.skip((n0 + n1 + n2 + n3 + n4 + n5) as int)) {
                                    Ok((v6, n6, k6)) => match T7::borrow_decoding(c, k6, s.skip((n0 + n1 + n2 + n3 + n4 + n5 + n6) as int)) {
                                        Ok((v7, n7, k7)) => match T8::borrow_decoding(c, k7, s.skip((n0 + n1 + n2 + n3 + n4 + n5 + n6 + n7) as int)) {
                                            Ok((v8, n8, k8)) => match T9::borrow_decoding(c, k8, s.skip((n0 + n1 + n2 + n3 + n4 + n5 + n6 + n7 + n8) as int)) {
                                                Ok((v9, n9, k9)) => match T10::borrow_decoding(c, k9, s.skip((n0 + n1 + n2 + n3 + n4 + n5 + n6 + n7 + n8 + n9) as int)) {
                                                    Ok((v10, n10, k10)) => Ok(((v0, v1, v2, v3, v4, v5, v6, v7, v8, v9, v10), n0 + n1 + n2 + n3 + n4 + n5 + n6 + n7 + n8 + n9 + n10, k10)),
                                                    Err(e) => Err(e),
                                                },
                                                Err(e) => Err(e),
                                            },
                                            Err(e) => Err(e),
                                        },
                                        Err(e) => Err(e),
                                    },
                                    Err(e) => Err(e),
                                },
                                Err(e) => Err(e),
                            },
                            Err(e) => Err(e),
                        },
                        Err(e) => Err(e),
                    },
                    Err(e) => Err(e),
                },
                Err(e) => Err(e),
            },
            Err(e) => Err(e),
        }
    }

    fn borrow_from_byte(b: u8) -> (r: Option<Self>) {
        None
    }

    fn borrow_decode<D: BorrowDecoder<'de, Context = Context>>(decoder: &mut D) -> (r: Result<Self, DecodeError>) {
        let ghost c = decoder.settings();
        let ghost s = decoder.pending();
        let ghost p0 = decoder.pending();
        let ghost q0 = decoder.claimed();
        let x0 = match T0::borrow_decode(decoder) {
            Ok(v) => v,
            Err(e) => return Err(e),
        };
        let ghost n0: nat = T0::borrow_decoding(c, q0, p0)->Ok_0.1;
        proof {
            assert(decoder.pending() =~= s.skip(n0 as int));
        }
        let ghost p1 = decoder.pending();
        let ghost q1 = decoder.claimed();
        let x1 = match T1::borrow_decode(decoder) {
            Ok(v) => v,
            Err(e) => return Err(e),
        };
        let ghost n1: nat = T1::borrow_decoding(c, q1, p1)->Ok_0.1;
        proof {
            assert(decoder.pending() =~= s.skip((n0 + n1) as int));
        }
        let ghost p2 = decoder.pending();
        let ghost q2 = decoder.claimed();
        let x2 = match T2::borrow_decode(decoder) {
            Ok(v) => v,
            Err(e) => return Err(e),
        };
        let ghost n2: nat = T2::borrow_decoding(c, q2, p2)->Ok_0.1;
        proof {
            assert(decoder.pending() =~= s.skip((n0 + n1 + n2) as int));
        }
        let ghost p3 = decoder.pending();
        let ghost q3 = decoder.claimed();
        let x3 = match T3::borrow_decode(decoder) {
            Ok(v) => v,
            Err(e) => return Err(e),
        };
        let ghost n3: nat = T3::borrow_decoding(c, q3, p3)->Ok_0.1;
        proof {
            assert(decoder.pending() =~= s.skip((n0 + n1 + n2 + n3) as int));
        }
        let ghost p4 = decoder.pending();
        let ghost q4 = decoder.claimed();
        let x4 = match T4::borrow_decode(decoder) {
            Ok(v) => v,
            Err(e) => return Err(e),
        };
        let ghost n4: nat = T4::borrow_decoding(c, q4, p4)->Ok_0.1;
        proof {
            assert(decoder.pending() =~= s.skip((n0 + n1 + n2 + n3 + n4) as int));
        }
        let ghost p5 = decoder.pending();
        let ghost q5 = decoder.claimed();
        let x5 = match T5::borrow_decode(decoder) {
            Ok(v) => v,
            Err(e) => return Err(e),
        };
        let ghost n5: nat = T5::borrow_decoding(c, q5, p5)->Ok_0.1;
        proof {
            assert(decoder.pending() =~= s.skip((n0 + n1 + n2 + n3 + n4 + n5) as int));
        }
        let ghost p6 = decoder.pending();
        let ghost q6 = decoder.claimed();
        let x6 = match T6::borrow_decode(decoder) {
            Ok(v) => v,
            Err(e) => return Err(e),
        };
        let ghost n6: nat = T6::borrow_decoding(c, q6, p6)->Ok_0.1;
        proof {
            assert(decoder.pending() =~= s.skip((n0 + n1 + n2 + n3 + n4 + n5 + n6) as int));
        }
        let ghost p7 = decoder.pending();
        let ghost q7 = decoder.claimed();
        let x7 = match T7::borrow_decode(decoder) {
            Ok(v) => v,
            Err(e) => return Err(e),
        };
        let ghost n7: nat = T7::borrow_decoding(c, q7, p7)->Ok_0.1;
        proof {
            assert(decoder.pending() =~= s.skip((n0 + n1 + n2 + n3 + n4 + n5 + n6 + n7) as int));
        }
        let ghost p8 = decoder.pending();
        let ghost q8 = decoder.claimed();
        let x8 = match T8::borrow_decode(decoder) {
            Ok(v) => v,
            Err(e) => return Err(e),
        };
        let ghost n8: nat = T8::borrow_decoding(c, q8, p8)->Ok_0.1;
        proof {
            assert(decoder.pending() =~= s.skip((n0 + n1 + n2 + n3 + n4 + n5 + n6 + n7 + n8) as int));
        }
        let ghost p9 = decoder.pending();
        let ghost q9 = decoder.claimed();
        let x9 = match T9::borrow_decode(decoder) {
            Ok(v) => v,
            Err(e) => return Err(e),
        };
        let ghost n9: nat = T9::borrow_decoding(c, q9, p9)->Ok_0.1;
        proof {
            assert(decoder.pending() =~= s.skip((n0 + n1 + n2 + n3 + n4 + n5 + n6 + n7 + n8 + n9) as int));
        }
        let ghost p10 = decoder.pending();
        let ghost q10 = decoder.claimed();
        let x10 = match T10::borrow_decode(decoder) {
            Ok(v) => v,
            Err(e) => return Err(e),
        };
        let ghost n10: nat = T10::borrow_decoding(c, q10, p10)->Ok_0.1;
        proof {
            assert(decoder.pending() =~= s.skip((n0 + n1 + n2 + n3 + n4 + n5 + n6 + n7 + n8 + n9 + n10) as int));
        }
        Ok((x0, x1, x2, x3, x4, x5, x6, x7, x8, x9, x10))
    }
}

impl<T0: Model, T1: Model, T2: Model, T3: Model, T4: Model, T5: Model, T6: Model, T7: Model, T8: Model, T9: Model, T10: Model, T11: Model> Model for (T0, T1, T2, T3, T4, T5, T6, T7, T8, T9, T10, T11) {
    type V = (T0::V, T1::V, T2::V, T3::V, T4::V, T5::V, T6::V, T7::V, T8::V, T9::V, T10::V, T11::V);

    open spec fn model(&self) -> (T0::V, T1::V, T2::V, T3::V, T4::V, T5::V, T6::V, T7::V, T8::V, T9::V, T10::V, T11::V) {
        (self.0.model(), self.1.model(), self.2.model(), self.3.model(), self.4.model(), self.5.model(), self.6.model(), self.7.model(), self.8.model(), self.9.model(), self.10.model(), self.11.model())
    }

    open spec fn byte_sized() -> bool {
        false
    }

    fn is_byte_sized() -> (r: bool) {
        false
    }

    open spec fn byte_value(b: u8) -> (T0::V, T1::V, T2::V, T3::V, T4::V, T5::V, T6::V, T7::V, T8::V, T9::V, T10::V, T11::V) {
        (T0::byte_value(b), T1::byte_value(b), T2::byte_value(b), T3::byte_value(b), T4::byte_value(b), T5::byte_value(b), T6::byte_value(b), T7::byte_value(b), T8::byte_value(b), T9::byte_value(b), T10::byte_value(b), T11::byte_value(b))
    }

    open spec fn byte_of(&self) -> u8 {
        0
    }

    fn to_byte(&self) -> (b: u8) {
        0
    }
}

impl<Context, T0: Decode<Context>, T1: Decode<Context>, T2: Decode<Context>, T3: Decode<Context>, T4: Decode<Context>, T5: Decode<Context>, T6: Decode<Context>, T7: Decode<Context>, T8: Decode<Context>, T9: Decode<Context>, T10: Decode<Context>, T11: Decode<Context>> Decode<Context> for (T0, T1, T2, T3, T4, T5, T6, T7, T8, T9, T10, T11) {
    open spec fn decoding(c: Configuration, k: nat, s: Seq<u8>) -> Result<((T0::V, T1::V, T2::V, T3::V, T4::V, T5::V, T6::V, T7::V, T8::V, T9::V, T10::V, T11::V), nat, nat), DecodeError> {
        match T0::decoding(c, k, s) {
            Ok((v0, n0, k0)) => match T1::decoding(c, k0, s.skip((n0) as int)) {
                Ok((v1, n1, k1)) => match T2::decoding(c, k1, s.skip((n0 + n1) as int)) {
                    Ok((v2, n2, k2)) => match T3::decoding(c, k2, s.skip((n0 + n1 + n2) as int)) {
                        Ok((v3, n3, k3)) => match T4::decoding(c, k3, s.skip((n0 + n1 + n2 + n3) as int)) {
                            Ok((v4, n4, k4)) => match T5::decoding(c, k4, s.skip((n0 + n1 + n2 + n3 + n4) as int)) {
                                Ok((v5, n5, k5)) => match T6::decoding(c, k5, s.skip((n0 + n1 + n2 + n3 + n4 + n5) as int)) {
                                    Ok((v6, n6, k6)) => match T7::decoding(c, k6, s.skip((n0 + n1 + n2 + n3 + n4 + n5 + n6) as int)) {
                                        Ok((v7, n7, k7)) => match T8::decoding(c, k7, s.skip((n0 + n1 + n2 + n3 + n4 + n5 + n6 + n7) as int)) {
                                            Ok((v8, n8, k8)) => match T9::decoding(c, k8, s.skip((n0 + n1 + n2 + n3 + n4 + n5 + n6 + n7 + n8) as int)) {
                                                Ok((v9, n9, k9)) => match T10::decoding(c, k9, s.skip((n0 + n1 + n2 + n3 + n4 + n5 + n6 + n7 + n8 + n9) as int)) {
                                                    Ok((v10, n10, k10)) => match T11::decoding(c, k10, s.skip((n0 + n1 + n2 + n3 + n4 + n5 + n6 + n7 + n8 + n9 + n10) as int)) {
                                                        Ok((v11, n11, k11)) => Ok(((v0, v1, v2, v3, v4, v5, v6, v7, v8, v9, v10, v11), n0 + n1 + n2 + n3 + n4 + n5 + n6 + n7 + n8 + n9 + n10 + n11, k11)),
                                                        Err(e) => Err(e),
                                                    },
                                                    Err(e) => Err(e),
                                                },
                                                Err(e) => Err(e),
                                            },
                                            Err(e) => Err(e),
                                        },
                                        Err(e) => Err(e),
                                    },
                                    Err(e) => Err(e),
                                },
                                Err(e) => Err(e),
                            },
                            Err(e) => Err(e),
                        },
                        Err(e) => Err(e),
                    },
                    Err(e) => Err(e),
                },
                Err(e) => Err(e),
            },
            Err(e) => Err(e),
        }
    }

    fn from_byte(b: u8) -> (r: Option<Self>) {
        None
    }

    fn decode<D: Decoder<Context = Context>>(decoder: &mut D) -> (r: Result<Self, DecodeError>) {
        let ghost c = decoder.settings();
        let ghost s = decoder.pending();
        let ghost p0 = decoder.pending();
        let ghost q0 = decoder.claimed();
        let x0 = match T0::decode(decoder) {
            Ok(v) => v,
            Err(e) => return Err(e),
        };
        let ghost n0: nat = T0::decoding(c, q0, p0)->Ok_0.1;
        proof {
            assert(decoder.pending() =~= s.skip(n0 as int));
        }
        let ghost p1 = decoder.pending();
        let ghost q1 = decoder.claimed();
        let x1 = match T1::decode(decoder) {
            Ok(v) => v,
            Err(e) => return Err(e),
        };
        let ghost n1: nat = T1::decoding(c, q1, p1)->Ok_0.1;
        proof {
            assert(decoder.pending() =~= s.skip((n0 + n1) as int));
        }
        let ghost p2 = decoder.pending();
        let ghost q2 = decoder.claimed();
        let x2 = match T2::decode(decoder) {
            Ok(v) => v,
            Err(e) => return Err(e),
        };
        let ghost n2: nat = T2::decoding(c, q2, p2)->Ok_0.1;
        proof {
            assert(decoder.pending() =~= s.skip((n0 + n1 + n2) as int));
        }
        let ghost p3 = decoder.pending();
        let ghost q3 = decoder.claimed();
        let x3 = match T3::decode(decoder) {
            Ok(v) => v,
            Err(e) => return Err(e),
        };
        let ghost n3: nat = T3::decoding(c, q3, p3)->Ok_0.1;
        proof {
            assert(decoder.pending() =~= s.skip((n0 + n1 + n2 + n3) as int));
        }
        let ghost p4 = decoder.pending();
        let ghost q4 = decoder.claimed();
        let x4 = match T4::decode(decoder) {
            Ok(v) => v,
            Err(e) => return Err(e),
        };
        let ghost n4: nat = T4::decoding(c, q4, p4)->Ok_0.1;
        proof {
            assert(decoder.pending() =~= s.skip((n0 + n1 + n2 + n3 + n4) as int));
        }
        let ghost p5 = decoder.pending();
        let ghost q5 = decoder.claimed();
        let x5 = match T5::decode(decoder) {
            Ok(v) => v,
            Err(e) => return Err(e),
        };
        let ghost n5: nat = T5::decoding(c, q5, p5)->Ok_0.1;
        proof {
            assert(decoder.pending() =~= s.skip((n0 + n1 + n2 + n3 + n4 + n5) as int));
        }
        let ghost p6 = decoder.pending();
        let ghost q6 = decoder.claimed();
        let x6 = match T6::decode(decoder) {
            Ok(v) => v,
            Err(e) => return Err(e),
        };
        let ghost n6: nat = T6::decoding(c, q6, p6)->Ok_0.1;
        proof {
            assert(decoder.pending() =~= s.skip((n0 + n1 + n2 + n3 + n4 + n5 + n6) as int));
        }
        let ghost p7 = decoder.pending();
        let ghost q7 = decoder.claimed();
        let x7 = match T7::decode(decoder) {
            Ok(v) => v,
            Err(e) => return Err(e),
        };
        let ghost n7: nat = T7::decoding(c, q7, p7)->Ok_0.1;
        proof {
            assert(decoder.pending() =~= s.skip((n0 + n1 + n2 + n3 + n4 + n5 + n6 + n7) as int));
        }
        let ghost p8 = decoder.pending();
        let ghost q8 = decoder.claimed();
        let x8 = match T8::decode(decoder) {
            Ok(v) => v,
            Err(e) => return Err(e),
        };
        let ghost n8: nat = T8::decoding(c, q8, p8)->Ok_0.1;
        proof {
            assert(decoder.pending() =~= s.skip((n0 + n1 + n2 + n3 + n4 + n5 + n6 + n7 + n8) as int));
        }
        let ghost p9 = decoder.pending();
        let ghost q9 = decoder.claimed();
        let x9 = match T9::decode(decoder) {
            Ok(v) => v,
            Err(e) => return Err(e),
        };
        let ghost n9: nat = T9::decoding(c, q9, p9)->Ok_0.1;
        proof {
            assert(decoder.pending() =~= s.skip((n0 + n1 + n2 + n3 + n4 + n5 + n6 + n7 + n8 + n9) as int));
        }
        let ghost p10 = decoder.pending();
        let ghost q10 = decoder.claimed();
        let x10 = match T10::decode(decoder) {
            Ok(v) => v,
            Err(e) => return Err(e),
        };
        let ghost n10: nat = T10::decoding(c, q10, p10)->Ok_0.1;
        proof {
            assert(decoder.pending() =~= s.skip((n0 + n1 + n2 + n3 + n4 + n5 + n6 + n7 + n8 + n9 + n10) as int));
        }
        let ghost p11 = decoder.pending();
        let ghost q11 = decoder.claimed();
        let x11 = match T11::decode(decoder) {
            Ok(v) => v,
            Err(e) => return Err(e),
        };
        let ghost n11: nat = T11::decoding(c, q11, p11)->Ok_0.1;
        proof {
            assert(decoder.pending() =~= s.skip((n0 + n1 + n2 + n3 + n4 + n5 + n6 + n7 + n8 + n9 + n10 + n11) as int));
        }
        Ok((x0, x1, x2, x3, x4, x5, x6, x7, x8, x9, x10, x11))
    }
}

impl<'de, Context, T0: BorrowDecode<'de, Context>, T1: BorrowDecode<'de, Context>, T2: BorrowDecode<'de, Context>, T3: BorrowDecode<'de, Context>, T4: BorrowDecode<'de, Context>, T5: BorrowDecode<'de, Context>, T6: BorrowDecode<'de, Context>, T7: BorrowDecode<'de, Context>, T8: BorrowDecode<'de, Context>, T9: BorrowDecode<'de, Context>, T10: BorrowDecode<'de, Context>, T11: BorrowDecode<'de, Context>> BorrowDecode<'de, Context> for (T0, T1, T2, T3, T4, T5, T6, T7, T8, T9, T10, T11) {
    open spec fn borrow_decoding(c: Configuration, k: nat, s: Seq<u8>) -> Result<((T0::V, T1::V, T2::V, T3::V, T4::V, T5::V, T6::V, T7::V, T8::V, T9::V, T10::V, T11::V), nat, nat), DecodeError> {
        match T0::borrow_decoding(c, k, s) {
            Ok((v0, n0, k0)) => match T1::borrow_decoding(c, k0, s.skip((n0) as int)) {
                Ok((v1, n1, k1)) => match T2::borrow_decoding(c, k1, s.skip((n0 + n1) as int)) {
                    Ok((v2, n2, k2)) => match T3::borrow_decoding(c, k2, s.skip((n0 + n1 + n2) as int)) {
                        Ok((v3, n3, k3)) => match T4::borrow_decoding(c, k3, s.skip((n0 + n1 + n2 + n3) as int)) {
                            Ok((v4, n4, k4)) => match T5::borrow_decoding(c, k4, s.skip((n0 + n1 + n2 + n3 + n4) as int)) {
                                Ok((v5, n5, k5)) => match T6::borrow_decoding(c, k5, s.skip((n0 + n1 + n2 + n3 + n4 + n5) as int)) {
                                    Ok((v6, n6, k6)) => match T7::borrow_decoding(c, k6, s.skip((n0 + n1 + n2 + n3 + n4 + n5 + n6) as int)) {
                                        Ok((v7, n7, k7)) => match T8::borrow_decoding(c, k7, s.skip((n0 + n1 + n2 + n3 + n4 + n5 + n6 + n7) as int)) {
                                            Ok((v8, n8, k8)) => match T9::borrow_decoding(c, k8, s.skip((n0 + n1 + n2 + n3 + n4 + n5 + n6 + n7 + n8) as int)) {
                                                Ok((v9, n9, k9)) => match T10::borrow_decoding(c, k9, s.skip((n0 + n1 + n2 + n3 + n4 + n5 + n6 + n7 + n8 + n9) as int)) {
                                                    Ok((v10, n10, k10)) => match T11::borrow_decoding(c, k10, s.skip((n0 + n1 + n2 + n3 + n4 + n5 + n6 + n7 + n8 + n9 + n10) as int)) {
                                                        Ok((v11, n11, k11)) => Ok(((v0, v1, v2, v3, v4, v5, v6, v7, v8, v9, v10, v11), n0 + n1 + n2 + n3 + n4 + n5 + n6 + n7 + n8 + n9 + n10 + n11, k11)),
                                                        Err(e) => Err(e),
                                                    },
                                                    Err(e) => Err(e),
                                                },
                                                Err(e) => Err(e),
                                            },
                                            Err(e) => Err(e),
                                        },
                                        Err(e) => Err(e),
                                    },
                                    Err(e) => Err(e),
                                },
                                Err(e) => Err(e),
                            },
                            Err(e) => Err(e),
                        },
                        Err(e) => Err(e),
                    },
                    Err(e) => Err(e),
                },
                Err(e) => Err(e),
            },
            Err(e) => Err(e),
        }
    }

    fn borrow_from_byte(b: u8) -> (r: Option<Self>) {
        None
    }

    fn borrow_decode<D: BorrowDecoder<'de, Context = Context>>(decoder: &mut D) -> (r: Result<Self, DecodeError>) {
        let ghost c = decoder.settings();
        let ghost s = decoder.pending();
        let ghost p0 = decoder.pending();
        let ghost q0 = decoder.claimed();
        let x0 = match T0::borrow_decode(decoder) {
            Ok(v) => v,
            Err(e) => return Err(e),
        };
        let ghost n0: nat = T0::borrow_decoding(c, q0, p0)->Ok_0.1;
        proof {
            assert(decoder.pending() =~= s.skip(n0 as int));
        }
        let ghost p1 = decoder.pending();
        let ghost q1 = decoder.claimed();
        let x1 = match T1::borrow_decode(decoder) {
            Ok(v) => v,
            Err(e) => return Err(e),
        };
        let ghost n1: nat = T1::borrow_decoding(c, q1, p1)->Ok_0.1;
        proof {
            assert(decoder.pending() =~= s.skip((n0 + n1) as int));
        }
        let ghost p2 = decoder.pending();
        let ghost q2 = decoder.claimed();
        let x2 = match T2::borrow_decode(decoder) {
            Ok(v) => v,
            Err(e) => return Err(e),
        };
        let ghost n2: nat = T2::borrow_decoding(c, q2, p2)->Ok_0.1;
        proof {
            assert(decoder.pending() =~= s.skip((n0 + n1 + n2) as int));
        }
        let ghost p3 = decoder.pending();
        let ghost q3 = decoder.claimed();
        let x3 = match T3::borrow_decode(decoder) {
            Ok(v) => v,
            Err(e) => return Err(e),
        };
        let ghost n3: nat = T3::borrow_decoding(c, q3, p3)->Ok_0.1;
        proof {
            assert(decoder.pending() =~= s.skip((n0 + n1 + n2 + n3) as int));
        }
        let ghost p4 = decoder.pending();
        let ghost q4 = decoder.claimed();
        let x4 = match T4::borrow_decode(decoder) {
            Ok(v) => v,
            Err(e) => return Err(e),
        };
        let ghost n4: nat = T4::borrow_decoding(c, q4, p4)->Ok_0.1;
        proof {
            assert(decoder.pending() =~= s.skip((n0 + n1 + n2 + n3 + n4) as int));
        }
        let ghost p5 = decoder.pending();
        let ghost q5 = decoder.claimed();
        let x5 = match T5::borrow_decode(decoder) {
            Ok(v) => v,
            Err(e) => return Err(e),
        };
        let ghost n5: nat = T5::borrow_decoding(c, q5, p5)->Ok_0.1;
        proof {
            assert(decoder.pending() =~= s.skip((n0 + n1 + n2 + n3 + n4 + n5) as int));
        }
        let ghost p6 = decoder.pending();
        let ghost q6 = decoder.claimed();
        let x6 = match T6::borrow_decode(decoder) {
            Ok(v) => v,
            Err(e) => return Err(e),
        };
        let ghost n6: nat = T6::borrow_decoding(c, q6, p6)->Ok_0.1;
        proof {
            assert(decoder.pending() =~= s.skip((n0 + n1 + n2 + n3 + n4 + n5 + n6) as int));
        }
        let ghost p7 = decoder.pending();
        let ghost q7 = decoder.claimed();
        let x7 = match T7::borrow_decode(decoder) {
            Ok(v) => v,
            Err(e) => return Err(e),
        };
        let ghost n7: nat = T7::borrow_decoding(c, q7, p7)->Ok_0.1;
        proof {
            assert(decoder.pending() =~= s.skip((n0 + n1 + n2 + n3 + n4 + n5 + n6 + n7) as int));
        }
        let ghost p8 = decoder.pending();
        let ghost q8 = decoder.claimed();
        let x8 = match T8::borrow_decode(decoder) {
            Ok(v) => v,
            Err(e) => return Err(e),
        };
        let ghost n8: nat = T8::borrow_decoding(c, q8, p8)->Ok_0.1;
        proof {
            assert(decoder.pending() =~= s.skip((n0 + n1 + n2 + n3 + n4 + n5 + n6 + n7 + n8) as int));
        }
        let ghost p9 = decoder.pending();
        let ghost q9 = decoder.claimed();
        let x9 = match T9::borrow_decode(decoder) {
            Ok(v) => v,
            Err(e) => return Err(e),
        };
        let ghost n9: nat = T9::borrow_decoding(c, q9, p9)->Ok_0.1;
        proof {
            assert(decoder.pending() =~= s.skip((n0 + n1 + n2 + n3 + n4 + n5 + n6 + n7 + n8 + n9) as int));
        }
        let ghost p10 = decoder.pending();
        let ghost q10 = decoder.claimed();
        let x10 = match T10::borrow_decode(decoder) {
            Ok(v) => v,
            Err(e) => return Err(e),
        };
        let ghost n10: nat = T10::borrow_decoding(c, q10, p10)->Ok_0.1;
        proof {
            assert(decoder.pending() =~= s.skip((n0 + n1 + n2 + n3 + n4 + n5 + n6 + n7 + n8 + n9 + n10) as int));
        }
        let ghost p11 = decoder.pending();
        let ghost q11 = decoder.claimed();
        let x11 = match T11::borrow_decode(decoder) {
            Ok(v) => v,
            Err(e) => return Err(e),
        };
        let ghost n11: nat = T11::borrow_decoding(c, q11, p11)->Ok_0.1;
        proof {
            assert(decoder.pending() =~= s.skip((n0 + n1 + n2 + n3 + n4 + n5 + n6 + n7 + n8 + n9 + n10 + n11) as int));
        }
        Ok((x0, x1, x2, x3, x4, x5, x6, x7, x8, x9, x10, x11))
    }
}

impl<T0: Model, T1: Model, T2: Model, T3: Model, T4: Model, T5: Model, T6: Model, T7: Model, T8: Model, T9: Model, T10: Model, T11: Model, T12: Model> Model for (T0, T1, T2, T3, T4, T5, T6, T7, T8, T9, T10, T11, T12) {
    type V = (T0::V, T1::V, T2::V, T3::V, T4::V, T5::V, T6::V, T7::V, T8::V, T9::V, T10::V, T11::V, T12::V);

    open spec fn model(&self) -> (T0::V, T1::V, T2::V, T3::V, T4::V, T5::V, T6::V, T7::V, T8::V, T9::V, T10::V, T11::V, T12::V) {
        (self.0.model(), self.1.model(), self.2.model(), self.3.model(), self.4.model(), self.5.model(), self.6.model(), self.7.model(), self.8.model(), self.9.model(), self.10.model(), self.11.model(), self.12.model())
    }

    open spec fn byte_sized() -> bool {
        false
    }

    fn is_byte_sized() -> (r: bool) {
        false
    }

    open spec fn byte_value(b: u8) -> (T0::V, T1::V, T2::V, T3::V, T4::V, T5::V, T6::V, T7::V, T8::V, T9::V, T10::V, T11::V, T12::V) {
        (T0::byte_value(b), T1::byte_value(b), T2::byte_value(b), T3::byte_value(b), T4::byte_value(b), T5::byte_value(b), T6::byte_value(b), T7::byte_value(b), T8::byte_value(b), T9::byte_value(b), T10::byte_value(b), T11::byte_value(b), T12::byte_value(b))
    }

    open spec fn byte_of(&self) -> u8 {
        0
    }

    fn to_byte(&self) -> (b: u8) {
        0
    }
}

impl<Context, T0: Decode<Context>, T1: Decode<Context>, T2: Decode<Context>, T3: Decode<Context>, T4: Decode<Context>, T5: Decode<Context>, T6: Decode<Context>, T7: Decode<Context>, T8: Decode<Context>, T9: Decode<Context>, T10: Decode<Context>, T11: Decode<Context>, T12: Decode<Context>> Decode<Context> for (T0, T1, T2, T3, T4, T5, T6, T7, T8, T9, T10, T11, T12) {
    open spec fn decoding(c: Configuration, k: nat, s: Seq<u8>) -> Result<((T0::V, T1::V, T2::V, T3::V, T4::V, T5::V, T6::V, T7::V, T8::V, T9::V, T10::V, T11::V, T12::V), nat, nat), DecodeError> {
        match T0::decoding(c, k, s) {
            Ok((v0, n0, k0)) => match T1::decoding(c, k0, s.skip((n0) as int)) {
                Ok((v1, n1, k1)) => match T2::decoding(c, k1, s.skip((n0 + n1) as int)) {
                    Ok((v2, n2, k2)) => match T3::decoding(c, k2, s.skip((n0 + n1 + n2) as int)) {
                        Ok((v3, n3, k3)) => match T4::decoding(c, k3, s.skip((n0 + n1 + n2 + n3) as int)) {
                            Ok((v4, n4, k4)) => match T5::decoding(c, k4, s.skip((n0 + n1 + n2 + n3 + n4) as int)) {
                                Ok((v5, n5, k5)) => match T6::decoding(c, k5, s.skip((n0 + n1 + n2 + n3 + n4 + n5) as int)) {
                                    Ok((v6, n6, k6)) => match T7::decoding(c, k6, s.skip((n0 + n1 + n2 + n3 + n4 + n5 + n6) as int)) {
                                        Ok((v7, n7, k7)) => match T8::decoding(c, k7, s.skip((n0 + n1 + n2 + n3 + n4 + n5 + n6 + n7) as int)) {
                                            Ok((v8, n8, k8)) => match T9::decoding(c, k8, s.skip((n0 + n1 + n2 + n3 + n4 + n5 + n6 + n7 + n8) as int)) {
                                                Ok((v9, n9, k9)) => match T10::decoding(c, k9, s.skip((n0 + n1 + n2 + n3 + n4 + n5 + n6 + n7 + n8 + n9) as int)) {
                                                    Ok((v10, n10, k10)) => match T11::decoding(c, k10, s.skip((n0 + n1 + n2 + n3 + n4 + n5 + n6 + n7 + n8 + n9 + n10) as int)) {
                                                        Ok((v11, n11, k11)) => match T12::decoding(c, k11, s.skip((n0 + n1 + n2 + n3 + n4 + n5 + n6 + n7 + n8 + n9 + n10 + n11) as int)) {
                                                            Ok((v12, n12, k12)) => Ok(((v0, v1, v2, v3, v4, v5, v6, v7, v8, v9, v10, v11, v12), n0 + n1 + n2 + n3 + n4 + n5 + n6 + n7 + n8 + n9 + n10 + n11 + n12, k12)),
                                                            Err(e) => Err(e),
                                                        },
                                                        Err(e) => Err(e),
                                                    },
                                                    Err(e) => Err(e),
                                                },
                                                Err(e) => Err(e),
                                            },
                                            Err(e) => Err(e),
                                        },
                                        Err(e) => Err(e),
                                    },
                                    Err(e) => Err(e),
                                },
                                Err(e) => Err(e),
                            },
                            Err(e) => Err(e),
                        },
                        Err(e) => Err(e),
                    },
                    Err(e) => Err(e),
                },
                Err(e) => Err(e),
            },
            Err(e) => Err(e),
        }
    }

    fn from_byte(b: u8) -> (r: Option<Self>) {
        None
    }

    fn decode<D: Decoder<Context = Context>>(decoder: &mut D) -> (r: Result<Self, DecodeError>) {
        let ghost c = decoder.settings();
        let ghost s = decoder.pending();
        let ghost p0 = decoder.pending();
        let ghost q0 = decoder.claimed();
        let x0 = match T0::decode(decoder) {
            Ok(v) => v,
            Err(e) => return Err(e),
        };
        let ghost n0: nat = T0::decoding(c, q0, p0)->Ok_0.1;
        proof {
            assert(decoder.pending() =~= s.skip(n0 as int));
        }
        let ghost p1 = decoder.pending();
        let ghost q1 = decoder.claimed();
        let x1 = match T1::decode(decoder) {
            Ok(v) => v,
            Err(e) => return Err(e),
        };
        let ghost n1: nat = T1::decoding(c, q1, p1)->Ok_0.1;
        proof {
            assert(decoder.pending() =~= s.skip((n0 + n1) as int));
        }
        let ghost p2 = decoder.pending();
        let ghost q2 = decoder.claimed();
        let x2 = match T2::decode(decoder) {
            Ok(v) => v,
            Err(e) => return Err(e),
        };
        let ghost n2: nat = T2::decoding(c, q2, p2)->Ok_0.1;
        proof {
            assert(decoder.pending() =~= s.skip((n0 + n1 + n2) as int));
        }
        let ghost p3 = decoder.pending();
        let ghost q3 = decoder.claimed();
        let x3 = match T3::decode(decoder) {
            Ok(v) => v,
            Err(e) => return Err(e),
        };
        let ghost n3: nat = T3::decoding(c, q3, p3)->Ok_0.1;
        proof {
            assert(decoder.pending() =~= s.skip((n0 + n1 + n2 + n3) as int));
        }
        let ghost p4 = decoder.pending();
        let ghost q4 = decoder.claimed();
        let x4 = match T4::decode(decoder) {
            Ok(v) => v,
            Err(e) => return Err(e),
        };
        let ghost n4: nat = T4::decoding(c, q4, p4)->Ok_0.1;
        proof {
            assert(decoder.pending() =~= s.skip((n0 + n1 + n2 + n3 + n4) as int));
        }
        let ghost p5 = decoder.pending();
        let ghost q5 = decoder.claimed();
        let x5 = match T5::decode(decoder) {
            Ok(v) => v,
            Err(e) => return Err(e),
        };
        let ghost n5: nat = T5::decoding(c, q5, p5)->Ok_0.1;
        proof {
            assert(decoder.pending() =~= s.skip((n0 + n1 + n2 + n3 + n4 + n5) as int));
        }
        let ghost p6 = decoder.pending();
        let ghost q6 = decoder.claimed();
        let x6 = match T6::decode(decoder) {
            Ok(v) => v,
            Err(e) => return Err(e),
        };
        let ghost n6: nat = T6::decoding(c, q6, p6)->Ok_0.1;
        proof {
            assert(decoder.pending() =~= s.skip((n0 + n1 + n2 + n3 + n4 + n5 + n6) as int));
        }
        let ghost p7 = decoder.pending();
        let ghost q7 = decoder.claimed();
        let x7 = match T7::decode(decoder) {
            Ok(v) => v,
            Err(e) => return Err(e),
        };
        let ghost n7: nat = T7::decoding(c, q7, p7)->Ok_0.1;
        proof {
            assert(decoder.pending() =~= s.skip((n0 + n1 + n2 + n3 + n4 + n5 + n6 + n7) as int));
        }
        let ghost p8 = decoder.pending();
        let ghost q8 = decoder.claimed();
        let x8 = match T8::decode(decoder) {
            Ok(v) => v,
            Err(e) => return Err(e),
        };
        let ghost n8: nat = T8::decoding(c, q8, p8)->Ok_0.1;
        proof {
            assert(decoder.pending() =~= s.skip((n0 + n1 + n2 + n3 + n4 + n5 + n6 + n7 + n8) as int));
        }
        let ghost p9 = decoder.pending();
        let ghost q9 = decoder.claimed();
        let x9 = match T9::decode(decoder) {
            Ok(v) => v,
            Err(e) => return Err(e),
        };
        let ghost n9: nat = T9::decoding(c, q9, p9)->Ok_0.1;
        proof {
            assert(decoder.pending() =~= s.skip((n0 + n1 + n2 + n3 + n4 + n5 + n6 + n7 + n8 + n9) as int));
        }
        let ghost p10 = decoder.pending();
        let ghost q10 = decoder.claimed();
        let x10 = match T10::decode(decoder) {
            Ok(v) => v,
            Err(e) => return Err(e),
        };
        let ghost n10: nat = T10::decoding(c, q10, p10)->Ok_0.1;
        proof {
            assert(decoder.pending() =~= s.skip((n0 + n1 + n2 + n3 + n4 + n5 + n6 + n7 + n8 + n9 + n10) as int));
        }
        let ghost p11 = decoder.pending();
        let ghost q11 = decoder.claimed();
        let x11 = match T11::decode(decoder) {
            Ok(v) => v,
            Err(e) => return Err(e),
        };
        let ghost n11: nat = T11::decoding(c, q11, p11)->Ok_0.1;
        proof {
            assert(decoder.pending() =~= s.skip((n0 + n1 + n2 + n3 + n4 + n5 + n6 + n7 + n8 + n9 + n10 + n11) as int));
        }
        let ghost p12 = decoder.pending();
        let ghost q12 = decoder.claimed();
        let x12 = match T12::decode(decoder) {
            Ok(v) => v,
            Err(e) => return Err(e),
        };
        let ghost n12: nat = T12::decoding(c, q12, p12)->Ok_0.1;
        proof {
            assert(decoder.pending() =~= s.skip((n0 + n1 + n2 + n3 + n4 + n5 + n6 + n7 + n8 + n9 + n10 + n11 + n12) as int));
        }
        Ok((x0, x1, x2, x3, x4, x5, x6, x7, x8, x9, x10, x11, x12))
    }
}

impl<'de, Context, T0: BorrowDecode<'de, Context>, T1: BorrowDecode<'de, Context>, T2: BorrowDecode<'de, Context>, T3: BorrowDecode<'de, Context>, T4: BorrowDecode<'de, Context>, T5: BorrowDecode<'de, Context>, T6: BorrowDecode<'de, Context>, T7: BorrowDecode<'de, Context>, T8: BorrowDecode<'de, Context>, T9: BorrowDecode<'de, Context>, T10: BorrowDecode<'de, Context>, T11: BorrowDecode<'de, Context>, T12: BorrowDecode<'de, Context>> BorrowDecode<'de, Context> for (T0, T1, T2, T3, T4, T5, T6, T7, T8, T9, T10, T11, T12) {
    open spec fn borrow_decoding(c: Configuration, k: nat, s: Seq<u8>) -> Result<((T0::V, T1::V, T2::V, T3::V, T4::V, T5::V, T6::V, T7::V, T8::V, T9::V, T10::V, T11::V, T12::V), nat, nat), DecodeError> {
        match T0::borrow_decoding(c, k, s) {
            Ok((v0, n0, k0)) => match T1::borrow_decoding(c, k0, s.skip((n0) as int)) {
                Ok((v1, n1, k1)) => match T2::borrow_decoding(c, k1, s.skip((n0 + n1) as int)) {
                    Ok((v2, n2, k2)) => match T3::borrow_decoding(c, k2, s.skip((n0 + n1 + n2) as int)) {
                        Ok((v3, n3, k3)) => match T4::borrow_decoding(c, k3, s.skip((n0 + n1 + n2 + n3) as int)) {
                            Ok((v4, n4, k4)) => match T5::borrow_decoding(c, k4, s.skip((n0 + n1 + n2 + n3 + n4) as int)) {
                                Ok((v5, n5, k5)) => match T6::borrow_decoding(c, k5, s.skip((n0 + n1 + n2 + n3 + n4 + n5) as int)) {
                                    Ok((v6, n6, k6)) => match T7::borrow_decoding(c, k6, s.skip((n0 + n1 + n2 + n3 + n4 + n5 + n6) as int)) {
                                        Ok((v7, n7, k7)) => match T8::borrow_decoding(c, k7, s.skip((n0 + n1 + n2 + n3 + n4 + n5 + n6 + n7) as int)) {
                                            Ok((v8, n8, k8)) => match T9::borrow_decoding(c, k8, s.skip((n0 + n1 + n2 + n3 + n4 + n5 + n6 + n7 + n8) as int)) {
                                                Ok((v9, n9, k9)) => match T10::borrow_decoding(c, k9, s.skip((n0 + n1 + n2 + n3 + n4 + n5 + n6 + n7 + n8 + n9) as int)) {
                                                    Ok((v10, n10, k10)) => match T11::borrow_decoding(c, k10, s.skip((n0 + n1 + n2 + n3 + n4 + n5 + n6 + n7 + n8 + n9 + n10) as int)) {
                                                        Ok((v11, n11, k11)) => match T12::borrow_decoding(c, k11, s.skip((n0 + n1 + n2 + n3 + n4 + n5 + n6 + n7 + n8 + n9 + n10 + n11) as int)) {
                                                            Ok((v12, n12, k12)) => Ok(((v0, v1, v2, v3, v4, v5, v6, v7, v8, v9, v10, v11, v12), n0 + n1 + n2 + n3 + n4 + n5 + n6 + n7 + n8 + n9 + n10 + n11 + n12, k12)),
                                                            Err(e) => Err(e),
                                                        },
                                                        Err(e) => Err(e),
                                                    },
                                                    Err(e) => Err(e),
                                                },
                                                Err(e) => Err(e),
                                            },
                                            Err(e) => Err(e),
                                        },
                                        Err(e) => Err(e),
                                    },
                                    Err(e) => Err(e),
                                },
                                Err(e) => Err(e),
                            },
                            Err(e) => Err(e),
                        },
                        Err(e) => Err(e),
                    },
                    Err(e) => Err(e),
                },
                Err(e) => Err(e),
            },
            Err(e) => Err(e),
        }
    }

    fn borrow_from_byte(b: u8) -> (r: Option<Self>) {
        None
    }

    fn borrow_decode<D: BorrowDecoder<'de, Context = Context>>(decoder: &mut D) -> (r: Result<Self, DecodeError>) {
        let ghost c = decoder.settings();
        let ghost s = decoder.pending();
        let ghost p0 = decoder.pending();
        let ghost q0 = decoder.claimed();
        let x0 = match T0::borrow_decode(decoder) {
            Ok(v) => v,
            Err(e) => return Err(e),
        };
        let ghost n0: nat = T0::borrow_decoding(c, q0, p0)->Ok_0.1;
        proof {
            assert(decoder.pending() =~= s.skip(n0 as int));
        }
        let ghost p1 = decoder.pending();
        let ghost q1 = decoder.claimed();
        let x1 = match T1::borrow_decode(decoder) {
            Ok(v) => v,
            Err(e) => return Err(e),
        };
        let ghost n1: nat = T1::borrow_decoding(c, q1, p1)->Ok_0.1;
        proof {
            assert(decoder.pending() =~= s.skip((n0 + n1) as int));
        }
        let ghost p2 = decoder.pending();
        let ghost q2 = decoder.claimed();
        let x2 = match T2::borrow_decode(decoder) {
            Ok(v) => v,
            Err(e) => return Err(e),
        };
        let ghost n2: nat = T2::borrow_decoding(c, q2, p2)->Ok_0.1;
        proof {
            assert(decoder.pending() =~= s.skip((n0 + n1 + n2) as int));
        }
        let ghost p3 = decoder.pending();
        let ghost q3 = decoder.claimed();
        let x3 = match T3::borrow_decode(decoder) {
            Ok(v) => v,
            Err(e) => return Err(e),
        };
        let ghost n3: nat = T3::borrow_decoding(c, q3, p3)->Ok_0.1;
        proof {
            assert(decoder.pending() =~= s.skip((n0 + n1 + n2 + n3) as int));
        }
        let ghost p4 = decoder.pending();
        let ghost q4 = decoder.claimed();
        let x4 = match T4::borrow_decode(decoder) {
            Ok(v) => v,
            Err(e) => return Err(e),
        };
        let ghost n4: nat = T4::borrow_decoding(c, q4, p4)->Ok_0.1;
        proof {
            assert(decoder.pending() =~= s.skip((n0 + n1 + n2 + n3 + n4) as int));
        }
        let ghost p5 = decoder.pending();
        let ghost q5 = decoder.claimed();
        let x5 = match T5::borrow_decode(decoder) {
            Ok(v) => v,
            Err(e) => return Err(e),
        };
        let ghost n5: nat = T5::borrow_decoding(c, q5, p5)->Ok_0.1;
        proof {
            assert(decoder.pending() =~= s.skip((n0 + n1 + n2 + n3 + n4 + n5) as int));
        }
        let ghost p6 = decoder.pending();
        let ghost q6 = decoder.claimed();
        let x6 = match T6::borrow_decode(decoder) {
            Ok(v) => v,
            Err(e) => return Err(e),
        };
        let ghost n6: nat = T6::borrow_decoding(c, q6, p6)->Ok_0.1;
        proof {
            assert(decoder.pending() =~= s.skip((n0 + n1 + n2 + n3 + n4 + n5 + n6) as int));
        }
        let ghost p7 = decoder.pending();
        let ghost q7 = decoder.claimed();
        let x7 = match T7::borrow_decode(decoder) {
            Ok(v) => v,
            Err(e) => return Err(e),
        };
        let ghost n7: nat = T7::borrow_decoding(c, q7, p7)->Ok_0.1;
        proof {
            assert(decoder.pending() =~= s.skip((n0 + n1 + n2 + n3 + n4 + n5 + n6 + n7) as int));
        }
        let ghost p8 = decoder.pending();
        let ghost q8 = decoder.claimed();
        let x8 = match T8::borrow_decode(decoder) {
            Ok(v) => v,
            Err(e) => return Err(e),
        };
        let ghost n8: nat = T8::borrow_decoding(c, q8, p8)->Ok_0.1;
        proof {
            assert(decoder.pending() =~= s.skip((n0 + n1 + n2 + n3 + n4 + n5 + n6 + n7 + n8) as int));
        }
        let ghost p9 = decoder.pending();
        let ghost q9 = decoder.claimed();
        let x9 = match T9::borrow_decode(decoder) {
            Ok(v) => v,
            Err(e) => return Err(e),
        };
        let ghost n9: nat = T9::borrow_decoding(c, q9, p9)->Ok_0.1;
        proof {
            assert(decoder.pending() =~= s.skip((n0 + n1 + n2 + n3 + n4 + n5 + n6 + n7 + n8 + n9) as int));
        }
        let ghost p10 = decoder.pending();
        let ghost q10 = decoder.claimed();
        let x10 = match T10::borrow_decode(decoder) {
            Ok(v) => v,
            Err(e) => return Err(e),
        };
        let ghost n10: nat = T10::borrow_decoding(c, q10, p10)->Ok_0.1;
        proof {
            assert(decoder.pending() =~= s.skip((n0 + n1 + n2 + n3 + n4 + n5 + n6 + n7 + n8 + n9 + n10) as int));
        }
        let ghost p11 = decoder.pending();
        let ghost q11 = decoder.claimed();
        let x11 = match T11::borrow_decode(decoder) {
            Ok(v) => v,
            Err(e) => return Err(e),
        };
        let ghost n11: nat = T11::borrow_decoding(c, q11, p11)->Ok_0.1;
        proof {
            assert(decoder.pending() =~= s.skip((n0 + n1 + n2 + n3 + n4 + n5 + n6 + n7 + n8 + n9 + n10 + n11) as int));
        }
        let ghost p12 = decoder.pending();
        let ghost q12 = decoder.claimed();
        let x12 = match T12::borrow_decode(decoder) {
            Ok(v) => v,
            Err(e) => return Err(e),
        };
        let ghost n12: nat = T12::borrow_decoding(c, q12, p12)->Ok_0.1;
        proof {
            assert(decoder.pending() =~= s.skip((n0 + n1 + n2 + n3 + n4 + n5 + n6 + n7 + n8 + n9 + n10 + n11 + n12) as int));
        }
        Ok((x0, x1, x2, x3, x4, x5, x6, x7, x8, x9, x10, x11, x12))
    }
}

impl<T0: Model, T1: Model, T2: Model, T3: Model, T4: Model, T5: Model, T6: Model, T7: Model, T8: Model, T9: Model, T10: Model, T11: Model, T12: Model, T13: Model> Model for (T0, T1, T2, T3, T4, T5, T6, T7, T8, T9, T10, T11, T12, T13) {
    type V = (T0::V, T1::V, T2::V, T3::V, T4::V, T5::V, T6::V, T7::V, T8::V, T9::V, T10::V, T11::V, T12::V, T13::V);

    open spec fn model(&self) -> (T0::V, T1::V, T2::V, T3::V, T4::V, T5::V, T6::V, T7::V, T8::V, T9::V, T10::V, T11::V, T12::V, T13::V) {
        (self.0.model(), self.1.model(), self.2.model(), self.3.model(), self.4.model(), self.5.model(), self.6.model(), self.7.model(), self.8.model(), self.9.model(), self.10.model(), self.11.model(), self.12.model(), self.13.model())
    }

    open spec fn byte_sized() -> bool {
        false
    }

    fn is_byte_sized() -> (r: bool) {
        false
    }

    open spec fn byte_value(b: u8) -> (T0::V, T1::V, T2::V, T3::V, T4::V, T5::V, T6::V, T7::V, T8::V, T9::V, T10::V, T11::V, T12::V, T13::V) {
        (T0::byte_value(b), T1::byte_value(b), T2::byte_value(b), T3::byte_value(b), T4::byte_value(b), T5::byte_value(b), T6::byte_value(b), T7::byte_value(b), T8::byte_value(b), T9::byte_value(b), T10::byte_value(b), T11::byte_value(b), T12::byte_value(b), T13::byte_value(b))
    }

    open spec fn byte_of(&self) -> u8 {
        0
    }

    fn to_byte(&self) -> (b: u8) {
        0
    }
}

impl<Context, T0: Decode<Context>, T1: Decode<Context>, T2: Decode<Context>, T3: Decode<Context>, T4: Decode<Context>, T5: Decode<Context>, T6: Decode<Context>, T7: Decode<Context>, T8: Decode<Context>, T9: Decode<Context>, T10: Decode<Context>, T11: Decode<Context>, T12: Decode<Context>, T13: Decode<Context>> Decode<Context> for (T0, T1, T2, T3, T4, T5, T6, T7, T8, T9, T10, T11, T12, T13) {
    open spec fn decoding(c: Configuration, k: nat, s: Seq<u8>) -> Result<((T0::V, T1::V, T2::V, T3::V, T4::V, T5::V, T6::V, T7::V, T8::V, T9::V, T10::V, T11::V, T12::V, T13::V), nat, nat), DecodeError> {
        match T0::decoding(c, k, s) {
            Ok((v0, n0, k0)) => match T1::decoding(c, k0, s.skip((n0) as int)) {
                Ok((v1, n1, k1)) => match T2::decoding(c, k1, s.skip((n0 + n1) as int)) {
                    Ok((v2, n2, k2)) => match T3::decoding(c, k2, s.skip((n0 + n1 + n2) as int)) {
                        Ok((v3, n3, k3)) => match T4::decoding(c, k3, s.skip((n0 + n1 + n2 + n3) as int)) {
                            Ok((v4, n4, k4)) => match T5::decoding(c, k4, s.skip((n0 + n1 + n2 + n3 + n4) as int)) {
                                Ok((v5, n5, k5)) => match T6::decoding(c, k5, s.skip((n0 + n1 + n2 + n3 + n4 + n5) as int)) {
                                    Ok((v6, n6, k6)) => match T7::decoding(c, k6, s.skip((n0 + n1 + n2 + n3 + n4 + n5 + n6) as int)) {
                                        Ok((v7, n7, k7)) => match T8::decoding(c, k7, s.skip((n0 + n1 + n2 + n3 + n4 + n5 + n6 + n7) as int)) {
                                            Ok((v8, n8, k8)) => match T9::decoding(c, k8, s.skip((n0 + n1 + n2 + n3 + n4 + n5 + n6 + n7 + n8) as int)) {
                                                Ok((v9, n9, k9)) => match T10::decoding(c, k9, s.skip((n0 + n1 + n2 + n3 + n4 + n5 + n6 + n7 + n8 + n9) as int)) {
                                                    Ok((v10, n10, k10)) => match T11::decoding(c, k10, s.skip((n0 + n1 + n2 + n3 + n4 + n5 + n6 + n7 + n8 + n9 + n10) as int)) {
                                                        Ok((v11, n11, k11)) => match T12::decoding(c, k11, s.skip((n0 + n1 + n2 + n3 + n4 + n5 + n6 + n7 + n8 + n9 + n10 + n11) as int)) {
                                                            Ok((v12, n12, k12)) => match T13::decoding(c, k12, s.skip((n0 + n1 + n2 + n3 + n4 + n5 + n6 + n7 + n8 + n9 + n10 + n11 + n12) as int)) {
                                                                Ok((v13, n13, k13)) => Ok(((v0, v1, v2, v3, v4, v5, v6, v7, v8, v9, v10, v11, v12, v13), n0 + n1 + n2 + n3 + n4 + n5 + n6 + n7 + n8 + n9 + n10 + n11 + n12 + n13, k13)),
                                                                Err(e) => Err(e),
                                                            },
                                                            Err(e) => Err(e),
                                                        },
                                                        Err(e) => Err(e),
                                                    },
                                                    Err(e) => Err(e),
                                                },
                                                Err(e) => Err(e),
                                            },
                                            Err(e) => Err(e),
                                        },
                                        Err(e) => Err(e),
                                    },
                                    Err(e) => Err(e),
                                },
                                Err(e) => Err(e),
                            },
                            Err(e) => Err(e),
                        },
                        Err(e) => Err(e),
                    },
                    Err(e) => Err(e),
                },
                Err(e) => Err(e),
            },
            Err(e) => Err(e),
        }
    }

    fn from_byte(b: u8) -> (r: Option<Self>) {
        None
    }

    fn decode<D: Decoder<Context = Context>>(decoder: &mut D) -> (r: Result<Self, DecodeError>) {
        let ghost c = decoder.settings();
        let ghost s = decoder.pending();
        let ghost p0 = decoder.pending();
        let ghost q0 = decoder.claimed();
        let x0 = match T0::decode(decoder) {
            Ok(v) => v,
            Err(e) => return Err(e),
        };
        let ghost n0: nat = T0::decoding(c, q0, p0)->Ok_0.1;
        proof {
            assert(decoder.pending() =~= s.skip(n0 as int));
        }
        let ghost p1 = decoder.pending();
        let ghost q1 = decoder.claimed();
        let x1 = match T1::decode(decoder) {
            Ok(v) => v,
            Err(e) => return Err(e),
        };
        let ghost n1: nat = T1::decoding(c, q1, p1)->Ok_0.1;
        proof {
            assert(decoder.pending() =~= s.skip((n0 + n1) as int));
        }
        let ghost p2 = decoder.pending();
        let ghost q2 = decoder.claimed();
        let x2 = match T2::decode(decoder) {
            Ok(v) => v,
            Err(e) => return Err(e),
        };
        let ghost n2: nat = T2::decoding(c, q2, p2)->Ok_0.1;
        proof {
            assert(decoder.pending() =~= s.skip((n0 + n1 + n2) as int));
        }
        let ghost p3 = decoder.pending();
        let ghost q3 = decoder.claimed();
        let x3 = match T3::decode(decoder) {
            Ok(v) => v,
            Err(e) => return Err(e),
        };
        let ghost n3: nat = T3::decoding(c, q3, p3)->Ok_0.1;
        proof {
            assert(decoder.pending() =~= s.skip((n0 + n1 + n2 + n3) as int));
        }
        let ghost p4 = decoder.pending();
        let ghost q4 = decoder.claimed();
        let x4 = match T4::decode(decoder) {
            Ok(v) => v,
            Err(e) => return Err(e),
        };
        let ghost n4: nat = T4::decoding(c, q4, p4)->Ok_0.1;
        proof {
            assert(decoder.pending() =~= s.skip((n0 + n1 + n2 + n3 + n4) as int));
        }
        let ghost p5 = decoder.pending();
        let ghost q5 = decoder.claimed();
        let x5 = match T5::decode(decoder) {
            Ok(v) => v,
            Err(e) => return Err(e),
        };
        let ghost n5: nat = T5::decoding(c, q5, p5)->Ok_0.1;
        proof {
            assert(decoder.pending() =~= s.skip((n0 + n1 + n2 + n3 + n4 + n5) as int));
        }
        let ghost p6 = decoder.pending();
        let ghost q6 = decoder.claimed();
        let x6 = match T6::decode(decoder) {
            Ok(v) => v,
            Err(e) => return Err(e),
        };
        let ghost n6: nat = T6::decoding(c, q6, p6)->Ok_0.1;
        proof {
            assert(decoder.pending() =~= s.skip((n0 + n1 + n2 + n3 + n4 + n5 + n6) as int));
        }
        let ghost p7 = decoder.pending();
        let ghost q7 = decoder.claimed();
        let x7 = match T7::decode(decoder) {
            Ok(v) => v,
            Err(e) => return Err(e),
        };
        let ghost n7: nat = T7::decoding(c, q7, p7)->Ok_0.1;
        proof {
            assert(decoder.pending() =~= s.skip((n0 + n1 + n2 + n3 + n4 + n5 + n6 + n7) as int));
        }
        let ghost p8 = decoder.pending();
        let ghost q8 = decoder.claimed();
        let x8 = match T8::decode(decoder) {
            Ok(v) => v,
            Err(e) => return Err(e),
        };
        let ghost n8: nat = T8::decoding(c, q8, p8)->Ok_0.1;
        proof {
            assert(decoder.pending() =~= s.skip((n0 + n1 + n2 + n3 + n4 + n5 + n6 + n7 + n8) as int));
        }
        let ghost p9 = decoder.pending();
        let ghost q9 = decoder.claimed();
        let x9 = match T9::decode(decoder) {
            Ok(v) => v,
            Err(e) => return Err(e),
        };
        let ghost n9: nat = T9::decoding(c, q9, p9)->Ok_0.1;
        proof {
            assert(decoder.pending() =~= s.skip((n0 + n1 + n2 + n3 + n4 + n5 + n6 + n7 + n8 + n9) as int));
        }
        let ghost p10 = decoder.pending();
        let ghost q10 = decoder.claimed();
        let x10 = match T10::decode(decoder) {
            Ok(v) => v,
            Err(e) => return Err(e),
        };
        let ghost n10: nat = T10::decoding(c, q10, p10)->Ok_0.1;
        proof {
            assert(decoder.pending() =~= s.skip((n0 + n1 + n2 + n3 + n4 + n5 + n6 + n7 + n8 + n9 + n10) as int));
        }
        let ghost p11 = decoder.pending();
        let ghost q11 = decoder.claimed();
        let x11 = match T11::decode(decoder) {
            Ok(v) => v,
            Err(e) => return Err(e),
        };
        let ghost n11: nat = T11::decoding(c, q11, p11)->Ok_0.1;
        proof {
            assert(decoder.pending() =~= s.skip((n0 + n1 + n2 + n3 + n4 + n5 + n6 + n7 + n8 + n9 + n10 + n11) as int));
        }
        let ghost p12 = decoder.pending();
        let ghost q12 = decoder.claimed();
        let x12 = match T12::decode(decoder) {
            Ok(v) => v,
            Err(e) => return Err(e),
        };
        let ghost n12: nat = T12::decoding(c, q12, p12)->Ok_0.1;
        proof {
            assert(decoder.pending() =~= s.skip((n0 + n1 + n2 + n3 + n4 + n5 + n6 + n7 + n8 + n9 + n10 + n11 + n12) as int));
        }
        let ghost p13 = decoder.pending();
        let ghost q13 = decoder.claimed();
        let x13 = match T13::decode(decoder) {
            Ok(v) => v,
            Err(e) => return Err(e),
        };
        let ghost n13: nat = T13::decoding(c, q13, p13)->Ok_0.1;
        proof {
            assert(decoder.pending() =~= s.skip((n0 + n1 + n2 + n3 + n4 + n5 + n6 + n7 + n8 + n9 + n10 + n11 + n12 + n13) as int));
        }
        Ok((x0, x1, x2, x3, x4, x5, x6, x7, x8, x9, x10, x11, x12, x13))
    }
}

impl<'de, Context, T0: BorrowDecode<'de, Context>, T1: BorrowDecode<'de, Context>, T2: BorrowDecode<'de, Context>, T3: BorrowDecode<'de, Context>, T4: BorrowDecode<'de, Context>, T5: BorrowDecode<'de, Context>, T6: BorrowDecode<'de, Context>, T7: BorrowDecode<'de, Context>, T8: BorrowDecode<'de, Context>, T9: BorrowDecode<'de, Context>, T10: BorrowDecode<'de, Context>, T11: BorrowDecode<'de, Context>, T12: BorrowDecode<'de, Context>, T13: BorrowDecode<'de, Context>> BorrowDecode<'de, Context> for (T0, T1, T2, T3, T4, T5, T6, T7, T8, T9, T10, T11, T12, T13) {
    open spec fn borrow_decoding(c: Configuration, k: nat, s: Seq<u8>) -> Result<((T0::V, T1::V, T2::V, T3::V, T4::V, T5::V, T6::V, T7::V, T8::V, T9::V, T10::V, T11::V, T12::V, T13::V), nat, nat), DecodeError> {
        match T0::borrow_decoding(c, k, s) {
            Ok((v0, n0, k0)) => match T1::borrow_decoding(c, k0, s.skip((n0) as int)) {
                Ok((v1, n1, k1)) => match T2::borrow_decoding(c, k1, s.skip((n0 + n1) as int)) {
                    Ok((v2, n2, k2)) => match T3::borrow_decoding(c, k2, s.skip((n0 + n1 + n2) as int)) {
                        Ok((v3, n3, k3)) => match T4::borrow_decoding(c, k3, s.skip((n0 + n1 + n2 + n3) as int)) {
                            Ok((v4, n4, k4)) => match T5::borrow_decoding(c, k4, s.skip((n0 + n1 + n2 + n3 + n4) as int)) {
                                Ok((v5, n5, k5)) => match T6::borrow_decoding(c, k5, s.skip((n0 + n1 + n2 + n3 + n4 + n5) as int)) {
                                    Ok((v6, n6, k6)) => match T7::borrow_decoding(c, k6, s.skip((n0 + n1 + n2 + n3 + n4 + n5 + n6) as int)) {
                                        Ok((v7, n7, k7)) => match T8::borrow_decoding(c, k7, s.skip((n0 + n1 + n2 + n3 + n4 + n5 + n6 + n7) as int)) {
                                            Ok((v8, n8, k8)) => match T9::borrow_decoding(c, k8, s.skip((n0 + n1 + n2 + n3 + n4 + n5 + n6 + n7 + n8) as int)) {
                                                Ok((v9, n9, k9)) => match T10::borrow_decoding(c, k9, s.skip((n0 + n1 + n2 + n3 + n4 + n5 + n6 + n7 + n8 + n9) as int)) {
                                                    Ok((v10, n10, k10)) => match T11::borrow_decoding(c, k10, s.skip((n0 + n1 + n2 + n3 + n4 + n5 + n6 + n7 + n8 + n9 + n10) as int)) {
                                                        Ok((v11, n11, k11)) => match T12::borrow_decoding(c, k11, s.skip((n0 + n1 + n2 + n3 + n4 + n5 + n6 + n7 + n8 + n9 + n10 + n11) as int)) {
                                                            Ok((v12, n12, k12)) => match T13::borrow_decoding(c, k12, s.skip((n0 + n1 + n2 + n3 + n4 + n5 + n6 + n7 + n8 + n9 + n10 + n11 + n12) as int)) {
                                                                Ok((v13, n13, k13)) => Ok(((v0, v1, v2, v3, v4, v5, v6, v7, v8, v9, v10, v11, v12, v13), n0 + n1 + n2 + n3 + n4 + n5 + n6 + n7 + n8 + n9 + n10 + n11 + n12 + n13, k13)),
                                                                Err(e) => Err(e),
                                                            },
                                                            Err(e) => Err(e),
                                                        },
                                                        Err(e) => Err(e),
                                                    },
                                                    Err(e) => Err(e),
                                                },
                                                Err(e) => Err(e),
                                            },
                                            Err(e) => Err(e),
                                        },
                                        Err(e) => Err(e),
                                    },
                                    Err(e) => Err(e),
                                },
                                Err(e) => Err(e),
                            },
                            Err(e) => Err(e),
                        },
                        Err(e) => Err(e),
                    },
                    Err(e) => Err(e),
                },
                Err(e) => Err(e),
            },
            Err(e) => Err(e),
        }
    }

    fn borrow_from_byte(b: u8) -> (r: Option<Self>) {
        None
    }

    fn borrow_decode<D: BorrowDecoder<'de, Context = Context>>(decoder: &mut D) -> (r: Result<Self, DecodeError>) {
        let ghost c = decoder.settings();
        let ghost s = decoder.pending();
        let ghost p0 = decoder.pending();
        let ghost q0 = decoder.claimed();
        let x0 = match T0::borrow_decode(decoder) {
            Ok(v) => v,
            Err(e) => return Err(e),
        };
        let ghost n0: nat = T0::borrow_decoding(c, q0, p0)->Ok_0.1;
        proof {
            assert(decoder.pending() =~= s.skip(n0 as int));
        }
        let ghost p1 = decoder.pending();
        let ghost q1 = decoder.claimed();
        let x1 = match T1::borrow_decode(decoder) {
            Ok(v) => v,
            Err(e) => return Err(e),
        };
        let ghost n1: nat = T1::borrow_decoding(c, q1, p1)->Ok_0.1;
        proof {
            assert(decoder.pending() =~= s.skip((n0 + n1) as int));
        }
        let ghost p2 = decoder.pending();
        let ghost q2 = decoder.claimed();
        let x2 = match T2::borrow_decode(decoder) {
            Ok(v) => v,
            Err(e) => return Err(e),
        };
        let ghost n2: nat = T2::borrow_decoding(c, q2, p2)->Ok_0.1;
        proof {
            assert(decoder.pending() =~= s.skip((n0 + n1 + n2) as int));
        }
        let ghost p3 = decoder.pending();
        let ghost q3 = decoder.claimed();
        let x3 = match T3::borrow_decode(decoder) {
            Ok(v) => v,
            Err(e) => return Err(e),
        };
        let ghost n3: nat = T3::borrow_decoding(c, q3, p3)->Ok_0.1;
        proof {
            assert(decoder.pending() =~= s.skip((n0 + n1 + n2 + n3) as int));
        }
        let ghost p4 = decoder.pending();
        let ghost q4 = decoder.claimed();
        let x4 = match T4::borrow_decode(decoder) {
            Ok(v) => v,
            Err(e) => return Err(e),
        };
        let ghost n4: nat = T4::borrow_decoding(c, q4, p4)->Ok_0.1;
        proof {
            assert(decoder.pending() =~= s.skip((n0 + n1 + n2 + n3 + n4) as int));
        }
        let ghost p5 = decoder.pending();
        let ghost q5 = decoder.claimed();
        let x5 = match T5::borrow_decode(decoder) {
            Ok(v) => v,
            Err(e) => return Err(e),
        };
        let ghost n5: nat = T5::borrow_decoding(c, q5, p5)->Ok_0.1;
        proof {
            assert(decoder.pending() =~= s.skip((n0 + n1 + n2 + n3 + n4 + n5) as int));
        }
        let ghost p6 = decoder.pending();
        let ghost q6 = decoder.claimed();
        let x6 = match T6::borrow_decode(decoder) {
            Ok(v) => v,
            Err(e) => return Err(e),
        };
        let ghost n6: nat = T6::borrow_decoding(c, q6, p6)->Ok_0.1;
        proof {
            assert(decoder.pending() =~= s.skip((n0 + n1 + n2 + n3 + n4 + n5 + n6) as int));
        }
        let ghost p7 = decoder.pending();
        let ghost q7 = decoder.claimed();
        let x7 = match T7::borrow_decode(decoder) {
            Ok(v) => v,
            Err(e) => return Err(e),
        };
        let ghost n7: nat = T7::borrow_decoding(c, q7, p7)->Ok_0.1;
        proof {
            assert(decoder.pending() =~= s.skip((n0 + n1 + n2 + n3 + n4 + n5 + n6 + n7) as int));
        }
        let ghost p8 = decoder.pending();
        let ghost q8 = decoder.claimed();
        let x8 = match T8::borrow_decode(decoder) {
            Ok(v) => v,
            Err(e) => return Err(e),
        };
        let ghost n8: nat = T8::borrow_decoding(c, q8, p8)->Ok_0.1;
        proof {
            assert(decoder.pending() =~= s.skip((n0 + n1 + n2 + n3 + n4 + n5 + n6 + n7 + n8) as int));
        }
        let ghost p9 = decoder.pending();
        let ghost q9 = decoder.claimed();
        let x9 = match T9::borrow_decode(decoder) {
            Ok(v) => v,
            Err(e) => return Err(e),
        };
        let ghost n9: nat = T9::borrow_decoding(c, q9, p9)->Ok_0.1;
        proof {
            assert(decoder.pending() =~= s.skip((n0 + n1 + n2 + n3 + n4 + n5 + n6 + n7 + n8 + n9) as int));
        }
        let ghost p10 = decoder.pending();
        let ghost q10 = decoder.claimed();
        let x10 = match T10::borrow_decode(decoder) {
            Ok(v) => v,
            Err(e) => return Err(e),
        };
        let ghost n10: nat = T10::borrow_decoding(c, q10, p10)->Ok_0.1;
        proof {
            assert(decoder.pending() =~= s.skip((n0 + n1 + n2 + n3 + n4 + n5 + n6 + n7 + n8 + n9 + n10) as int));
        }
        let ghost p11 = decoder.pending();
        let ghost q11 = decoder.claimed();
        let x11 = match T11::borrow_decode(decoder) {
            Ok(v) => v,
            Err(e) => return Err(e),
        };
        let ghost n11: nat = T11::borrow_decoding(c, q11, p11)->Ok_0.1;
        proof {
            assert(decoder.pending() =~= s.skip((n0 + n1 + n2 + n3 + n4 + n5 + n6 + n7 + n8 + n9 + n10 + n11) as int));
        }
        let ghost p12 = decoder.pending();
        let ghost q12 = decoder.claimed();
        let x12 = match T12::borrow_decode(decoder) {
            Ok(v) => v,
            Err(e) => return Err(e),
        };
        let ghost n12: nat = T12::borrow_decoding(c, q12, p12)->Ok_0.1;
        proof {
            assert(decoder.pending() =~= s.skip((n0 + n1 + n2 + n3 + n4 + n5 + n6 + n7 + n8 + n9 + n10 + n11 + n12) as int));
        }
        let ghost p13 = decoder.pending();
        let ghost q13 = decoder.claimed();
        let x13 = match T13::borrow_decode(decoder) {
            Ok(v) => v,
            Err(e) => return Err(e),
        };
        let ghost n13: nat = T13::borrow_decoding(c, q13, p13)->Ok_0.1;
        proof {
            assert(decoder.pending() =~= s.skip((n0 + n1 + n2 + n3 + n4 + n5 + n6 + n7 + n8 + n9 + n10 + n11 + n12 + n13) as int));
        }
        Ok((x0, x1, x2, x3, x4, x5, x6, x7, x8, x9, x10, x11, x12, x13))
    }
}

impl<T0: Model, T1: Model, T2: Model, T3: Model, T4: Model, T5: Model, T6: Model, T7: Model, T8: Model, T9: Model, T10: Model, T11: Model, T12: Model, T13: Model, T14: Model> Model for (T0, T1, T2, T3, T4, T5, T6, T7, T8, T9, T10, T11, T12, T13, T14) {
    type V = (T0::V, T1::V, T2::V, T3::V, T4::V, T5::V, T6::V, T7::V, T8::V, T9::V, T10::V, T11::V, T12::V, T13::V, T14::V);

    open spec fn model(&self) -> (T0::V, T1::V, T2::V, T3::V, T4::V, T5::V, T6::V, T7::V, T8::V, T9::V, T10::V, T11::V, T12::V, T13::V, T14::V) {
        (self.0.model(), self.1.model(), self.2.model(), self.3.model(), self.4.model(), self.5.model(), self.6.model(), self.7.model(), self.8.model(), self.9.model(), self.10.model(), self.11.model(), self.12.model(), self.13.model(), self.14.model())
    }

    open spec fn byte_sized() -> bool {
        false
    }

    fn is_byte_sized() -> (r: bool) {
        false
    }

    open spec fn byte_value(b: u8) -> (T0::V, T1::V, T2::V, T3::V, T4::V, T5::V, T6::V, T7::V, T8::V, T9::V, T10::V, T11::V, T12::V, T13::V, T14::V) {
        (T0::byte_value(b), T1::byte_value(b), T2::byte_value(b), T3::byte_value(b), T4::byte_value(b), T5::byte_value(b), T6::byte_value(b), T7::byte_value(b), T8::byte_value(b), T9::byte_value(b), T10::byte_value(b), T11::byte_value(b), T12::byte_value(b), T13::byte_value(b), T14::byte_value(b))
    }

    open spec fn byte_of(&self) -> u8 {
        0
    }

    fn to_byte(&self) -> (b: u8) {
        0
    }
}

impl<Context, T0: Decode<Context>, T1: Decode<Context>, T2: Decode<Context>, T3: Decode<Context>, T4: Decode<Context>, T5: Decode<Context>, T6: Decode<Context>, T7: Decode<Context>, T8: Decode<Context>, T9: Decode<Context>, T10: Decode<Context>, T11: Decode<Context>, T12: Decode<Context>, T13: Decode<Context>, T14: Decode<Context>> Decode<Context> for (T0, T1, T2, T3, T4, T5, T6, T7, T8, T9, T10, T11, T12, T13, T14) {
    open spec fn decoding(c: Configuration, k: nat, s: Seq<u8>) -> Result<((T0::V, T1::V, T2::V, T3::V, T4::V, T5::V, T6::V, T7::V, T8::V, T9::V, T10::V, T11::V, T12::V, T13::V, T14::V), nat, nat), DecodeError> {
        match T0::decoding(c, k, s) {
            Ok((v0, n0, k0)) => match T1::decoding(c, k0, s.skip((n0) as int)) {
                Ok((v1, n1, k1)) => match T2::decoding(c, k1, s.skip((n0 + n1) as int)) {
                    Ok((v2, n2, k2)) => match T3::decoding(c, k2, s.skip((n0 + n1 + n2) as int)) {
                        Ok((v3, n3, k3)) => match T4::decoding(c, k3, s.skip((n0 + n1 + n2 + n3) as int)) {
                            Ok((v4, n4, k4)) => match T5::decoding(c, k4, s.skip((n0 + n1 + n2 + n3 + n4) as int)) {
                                Ok((v5, n5, k5)) => match T6::decoding(c, k5, s.skip((n0 + n1 + n2 + n3 + n4 + n5) as int)) {
                                    Ok((v6, n6, k6)) => match T7::decoding(c, k6, s.skip((n0 + n1 + n2 + n3 + n4 + n5 + n6) as int)) {
                                        Ok((v7, n7, k7)) => match T8::decoding(c, k7, s.skip((n0 + n1 + n2 + n3 + n4 + n5 + n6 + n7) as int)) {
                                            Ok((v8, n8, k8)) => match T9::decoding(c, k8, s.skip((n0 + n1 + n2 + n3 + n4 + n5 + n6 + n7 + n8) as int)) {
                                                Ok((v9, n9, k9)) => match T10::decoding(c, k9, s.skip((n0 + n1 + n2 + n3 + n4 + n5 + n6 + n7 + n8 + n9) as int)) {
                                                    Ok((v10, n10, k10)) => match T11::decoding(c, k10, s.skip((n0 + n1 + n2 + n3 + n4 + n5 + n6 + n7 + n8 + n9 + n10) as int)) {
                                                        Ok((v11, n11, k11)) => match T12::decoding(c, k11, s.skip((n0 + n1 + n2 + n3 + n4 + n5 + n6 + n7 + n8 + n9 + n10 + n11) as int)) {
                                                            Ok((v12, n12, k12)) => match T13::decoding(c, k12, s.skip((n0 + n1 + n2 + n3 + n4 + n5 + n6 + n7 + n8 + n9 + n10 + n11 + n12) as int)) {
                                                                Ok((v13, n13, k13)) => match T14::decoding(c, k13, s.skip((n0 + n1 + n2 + n3 + n4 + n5 + n6 + n7 + n8 + n9 + n10 + n11 + n12 + n13) as int)) {
                                                                    Ok((v14, n14, k14)) => Ok(((v0, v1, v2, v3, v4, v5, v6, v7, v8, v9, v10, v11, v12, v13, v14), n0 + n1 + n2 + n3 + n4 + n5 + n6 + n7 + n8 + n9 + n10 + n11 + n12 + n13 + n14, k14)),
                                                                    Err(e) => Err(e),
                                                                },
                                                                Err(e) => Err(e),
                                                            },
                                                            Err(e) => Err(e),
                                                        },
                                                        Err(e) => Err(e),
                                                    },
                                                    Err(e) => Err(e),
                                                },
                                                Err(e) => Err(e),
                                            },
                                            Err(e) => Err(e),
                                        },
                                        Err(e) => Err(e),
                                    },
                                    Err(e) => Err(e),
                                },
                                Err(e) => Err(e),
                            },
                            Err(e) => Err(e),
                        },
                        Err(e) => Err(e),
                    },
                    Err(e) => Err(e),
                },
                Err(e) => Err(e),
            },
            Err(e) => Err(e),
        }
    }

    fn from_byte(b: u8) -> (r: Option<Self>) {
        None
    }

    fn decode<D: Decoder<Context = Context>>(decoder: &mut D) -> (r: Result<Self, DecodeError>) {
        let ghost c = decoder.settings();
        let ghost s = decoder.pending();
        let ghost p0 = decoder.pending();
        let ghost q0 = decoder.claimed();
        let x0 = match T0::decode(decoder) {
            Ok(v) => v,
            Err(e) => return Err(e),
        };
        let ghost n0: nat = T0::decoding(c, q0, p0)->Ok_0.1;
        proof {
            assert(decoder.pending() =~= s.skip(n0 as int));
        }
        let ghost p1 = decoder.pending();
        let ghost q1 = decoder.claimed();
        let x1 = match T1::decode(decoder) {
            Ok(v) => v,
            Err(e) => return Err(e),
        };
        let ghost n1: nat = T1::decoding(c, q1, p1)->Ok_0.1;
        proof {
            assert(decoder.pending() =~= s.skip((n0 + n1) as int));
        }
        let ghost p2 = decoder.pending();
        let ghost q2 = decoder.claimed();
        let x2 = match T2::decode(decoder) {
            Ok(v) => v,
            Err(e) => return Err(e),
        };
        let ghost n2: nat = T2::decoding(c, q2, p2)->Ok_0.1;
        proof {
            assert(decoder.pending() =~= s.skip((n0 + n1 + n2) as int));
        }
        let ghost p3 = decoder.pending();
        let ghost q3 = decoder.claimed();
        let x3 = match T3::decode(decoder) {
            Ok(v) => v,
            Err(e) => return Err(e),
        };
        let ghost n3: nat = T3::decoding(c, q3, p3)->Ok_0.1;
        proof {
            assert(decoder.pending() =~= s.skip((n0 + n1 + n2 + n3) as int));
        }
        let ghost p4 = decoder.pending();
        let ghost q4 = decoder.claimed();
        let x4 = match T4::decode(decoder) {
            Ok(v) => v,
            Err(e) => return Err(e),
        };
        let ghost n4: nat = T4::decoding(c, q4, p4)->Ok_0.1;
        proof {
            assert(decoder.pending() =~= s.skip((n0 + n1 + n2 + n3 + n4) as int));
        }
        let ghost p5 = decoder.pending();
        let ghost q5 = decoder.claimed();
        let x5 = match T5::decode(decoder) {
            Ok(v) => v,
            Err(e) => return Err(e),
        };
        let ghost n5: nat = T5::decoding(c, q5, p5)->Ok_0.1;
        proof {
            assert(decoder.pending() =~= s.skip((n0 + n1 + n2 + n3 + n4 + n5) as int));
        }
        let ghost p6 = decoder.pending();
        let ghost q6 = decoder.claimed();
        let x6 = match T6::decode(decoder) {
            Ok(v) => v,
            Err(e) => return Err(e),
        };
        let ghost n6: nat = T6::decoding(c, q6, p6)->Ok_0.1;
        proof {
            assert(decoder.pending() =~= s.skip((n0 + n1 + n2 + n3 + n4 + n5 + n6) as int));
        }
        let ghost p7 = decoder.pending();
        let ghost q7 = decoder.claimed();
        let x7 = match T7::decode(decoder) {
            Ok(v) => v,
            Err(e) => return Err(e),
        };
        let ghost n7: nat = T7::decoding(c, q7, p7)->Ok_0.1;
        proof {
            assert(decoder.pending() =~= s.skip((n0 + n1 + n2 + n3 + n4 + n5 + n6 + n7) as int));
        }
        let ghost p8 = decoder.pending();
        let ghost q8 = decoder.claimed();
        let x8 = match T8::decode(decoder) {
            Ok(v) => v,
            Err(e) => return Err(e),
        };
        let ghost n8: nat = T8::decoding(c, q8, p8)->Ok_0.1;
        proof {
            assert(decoder.pending() =~= s.skip((n0 + n1 + n2 + n3 + n4 + n5 + n6 + n7 + n8) as int));
        }
        let ghost p9 = decoder.pending();
        let ghost q9 = decoder.claimed();
        let x9 = match T9::decode(decoder) {
            Ok(v) => v,
            Err(e) => return Err(e),
        };
        let ghost n9: nat = T9::decoding(c, q9, p9)->Ok_0.1;
        proof {
            assert(decoder.pending() =~= s.skip((n0 + n1 + n2 + n3 + n4 + n5 + n6 + n7 + n8 + n9) as int));
        }
        let ghost p10 = decoder.pending();
        let ghost q10 = decoder.claimed();
        let x10 = match T10::decode(decoder) {
            Ok(v) => v,
            Err(e) => return Err(e),
        };
        let ghost n10: nat = T10::decoding(c, q10, p10)->Ok_0.1;
        proof {
            assert(decoder.pending() =~= s.skip((n0 + n1 + n2 + n3 + n4 + n5 + n6 + n7 + n8 + n9 + n10) as int));
        }
        let ghost p11 = decoder.pending();
        let ghost q11 = decoder.claimed();
        let x11 = match T11::decode(decoder) {
            Ok(v) => v,
            Err(e) => return Err(e),
        };
        let ghost n11: nat = T11::decoding(c, q11, p11)->Ok_0.1;
        proof {
            assert(decoder.pending() =~= s.skip((n0 + n1 + n2 + n3 + n4 + n5 + n6 + n7 + n8 + n9 + n10 + n11) as int));
        }
        let ghost p12 = decoder.pending();
        let ghost q12 = decoder.claimed();
        let x12 = match T12::decode(decoder) {
            Ok(v) => v,
            Err(e) => return Err(e),
        };
        let ghost n12: nat = T12::decoding(c, q12, p12)->Ok_0.1;
        proof {
            assert(decoder.pending() =~= s.skip((n0 + n1 + n2 + n3 + n4 + n5 + n6 + n7 + n8 + n9 + n10 + n11 + n12) as int));
        }
        let ghost p13 = decoder.pending();
        let ghost q13 = decoder.claimed();
        let x13 = match T13::decode(decoder) {
            Ok(v) => v,
            Err(e) => return Err(e),
        };
        let ghost n13: nat = T13::decoding(c, q13, p13)->Ok_0.1;
        proof {
            assert(decoder.pending() =~= s.skip((n0 + n1 + n2 + n3 + n4 + n5 + n6 + n7 + n8 + n9 + n10 + n11 + n12 + n13) as int));
        }
        let ghost p14 = decoder.pending();
        let ghost q14 = decoder.claimed();
        let x14 = match T14::decode(decoder) {
            Ok(v) => v,
            Err(e) => return Err(e),
        };
        let ghost n14: nat = T14::decoding(c, q14, p14)->Ok_0.1;
        proof {
            assert(decoder.pending() =~= s.skip((n0 + n1 + n2 + n3 + n4 + n5 + n6 + n7 + n8 + n9 + n10 + n11 + n12 + n13 + n14) as int));
        }
        Ok((x0, x1, x2, x3, x4, x5, x6, x7, x8, x9, x10, x11, x12, x13, x14))
    }
}

impl<'de, Context, T0: BorrowDecode<'de, Context>, T1: BorrowDecode<'de, Context>, T2: BorrowDecode<'de, Context>, T3: BorrowDecode<'de, Context>, T4: BorrowDecode<'de, Context>, T5: BorrowDecode<'de, Context>, T6: BorrowDecode<'de, Context>, T7: BorrowDecode<'de, Context>, T8: BorrowDecode<'de, Context>, T9: BorrowDecode<'de, Context>, T10: BorrowDecode<'de, Context>, T11: BorrowDecode<'de, Context>, T12: BorrowDecode<'de, Context>, T13: BorrowDecode<'de, Context>, T14: BorrowDecode<'de, Context>> BorrowDecode<'de, Context> for (T0, T1, T2, T3, T4, T5, T6, T7, T8, T9, T10, T11, T12, T13, T14) {
    open spec fn borrow_decoding(c: Configuration, k: nat, s: Seq<u8>) -> Result<((T0::V, T1::V, T2::V, T3::V, T4::V, T5::V, T6::V, T7::V, T8::V, T9::V, T10::V, T11::V, T12::V, T13::V, T14::V), nat, nat), DecodeError> {
        match T0::borrow_decoding(c, k, s) {
            Ok((v0, n0, k0)) => match T1::borrow_decoding(c, k0, s.skip((n0) as int)) {
                Ok((v1, n1, k1)) => match T2::borrow_decoding(c, k1, s.skip((n0 + n1) as int)) {
                    Ok((v2, n2, k2)) => match T3::borrow_decoding(c, k2, s.skip((n0 + n1 + n2) as int)) {
                        Ok((v3, n3, k3)) => match T4::borrow_decoding(c, k3, s.skip((n0 + n1 + n2 + n3) as int)) {
                            Ok((v4, n4, k4)) => match T5::borrow_decoding(c, k4, s.skip((n0 + n1 + n2 + n3 + n4) as int)) {
                                Ok((v5, n5, k5)) => match T6::borrow_decoding(c, k5, s.skip((n0 + n1 + n2 + n3 + n4 + n5) as int)) {
                                    Ok((v6, n6, k6)) => match T7::borrow_decoding(c, k6, s.skip((n0 + n1 + n2 + n3 + n4 + n5 + n6) as int)) {
                                        Ok((v7, n7, k7)) => match T8::borrow_decoding(c, k7, s.skip((n0 + n1 + n2 + n3 + n4 + n5 + n6 + n7) as int)) {
                                            Ok((v8, n8, k8)) => match T9::borrow_decoding(c, k8, s.skip((n0 + n1 + n2 + n3 + n4 + n5 + n6 + n7 + n8) as int)) {
                                                Ok((v9, n9, k9)) => match T10::borrow_decoding(c, k9, s.skip((n0 + n1 + n2 + n3 + n4 + n5 + n6 + n7 + n8 + n9) as int)) {
                                                    Ok((v10, n10, k10)) => match T11::borrow_decoding(c, k10, s.skip((n0 + n1 + n2 + n3 + n4 + n5 + n6 + n7 + n8 + n9 + n10) as int)) {
                                                        Ok((v11, n11, k11)) => match T12::borrow_decoding(c, k11, s.skip((n0 + n1 + n2 + n3 + n4 + n5 + n6 + n7 + n8 + n9 + n10 + n11) as int)) {
                                                            Ok((v12, n12, k12)) => match T13::borrow_decoding(c, k12, s.skip((n0 + n1 + n2 + n3 + n4 + n5 + n6 + n7 + n8 + n9 + n10 + n11 + n12) as int)) {
                                                                Ok((v13, n13, k13)) => match T14::borrow_decoding(c, k13, s.skip((n0 + n1 + n2 + n3 + n4 + n5 + n6 + n7 + n8 + n9 + n10 + n11 + n12 + n13) as int)) {
                                                                    Ok((v14, n14, k14)) => Ok(((v0, v1, v2, v3, v4, v5, v6, v7, v8, v9, v10, v11, v12, v13, v14), n0 + n1 + n2 + n3 + n4 + n5 + n6 + n7 + n8 + n9 + n10 + n11 + n12 + n13 + n14, k14)),
                                                                    Err(e) => Err(e),
                                                                },
                                                                Err(e) => Err(e),
                                                            },
                                                            Err(e) => Err(e),
                                                        },
                                                        Err(e) => Err(e),
                                                    },
                                                    Err(e) => Err(e),
                                                },
                                                Err(e) => Err(e),
                                            },
                                            Err(e) => Err(e),
                                        },
                                        Err(e) => Err(e),
                                    },
                                    Err(e) => Err(e),
                                },
                                Err(e) => Err(e),
                            },
                            Err(e) => Err(e),
                        },
                        Err(e) => Err(e),
                    },
                    Err(e) => Err(e),
                },
                Err(e) => Err(e),
            },
            Err(e) => Err(e),
        }
    }

    fn borrow_from_byte(b: u8) -> (r: Option<Self>) {
        None
    }

    fn borrow_decode<D: BorrowDecoder<'de, Context = Context>>(decoder: &mut D) -> (r: Result<Self, DecodeError>) {
        let ghost c = decoder.settings();
        let ghost s = decoder.pending();
        let ghost p0 = decoder.pending();
        let ghost q0 = decoder.claimed();
        let x0 = match T0::borrow_decode(decoder) {
            Ok(v) => v,
            Err(e) => return Err(e),
        };
        let ghost n0: nat = T0::borrow_decoding(c, q0, p0)->Ok_0.1;
        proof {
            assert(decoder.pending() =~= s.skip(n0 as int));
        }
        let ghost p1 = decoder.pending();
        let ghost q1 = decoder.claimed();
        let x1 = match T1::borrow_decode(decoder) {
            Ok(v) => v,
            Err(e) => return Err(e),
        };
        let ghost n1: nat = T1::borrow_decoding(c, q1, p1)->Ok_0.1;
        proof {
            assert(decoder.pending() =~= s.skip((n0 + n1) as int));
        }
        let ghost p2 = decoder.pending();
        let ghost q2 = decoder.claimed();
        let x2 = match T2::borrow_decode(decoder) {
            Ok(v) => v,
            Err(e) => return Err(e),
        };
        let ghost n2: nat = T2::borrow_decoding(c, q2, p2)->Ok_0.1;
        proof {
            assert(decoder.pending() =~= s.skip((n0 + n1 + n2) as int));
        }
        let ghost p3 = decoder.pending();
        let ghost q3 = decoder.claimed();
        let x3 = match T3::borrow_decode(decoder) {
            Ok(v) => v,
            Err(e) => return Err(e),
        };
        let ghost n3: nat = T3::borrow_decoding(c, q3, p3)->Ok_0.1;
        proof {
            assert(decoder.pending() =~= s.skip((n0 + n1 + n2 + n3) as int));
        }
        let ghost p4 = decoder.pending();
        let ghost q4 = decoder.claimed();
        let x4 = match T4::borrow_decode(decoder) {
            Ok(v) => v,
            Err(e) => return Err(e),
        };
        let ghost n4: nat = T4::borrow_decoding(c, q4, p4)->Ok_0.1;
        proof {
            assert(decoder.pending() =~= s.skip((n0 + n1 + n2 + n3 + n4) as int));
        }
        let ghost p5 = decoder.pending();
        let ghost q5 = decoder.claimed();
        let x5 = match T5::borrow_decode(decoder) {
            Ok(v) => v,
            Err(e) => return Err(e),
        };
        let ghost n5: nat = T5::borrow_decoding(c, q5, p5)->Ok_0.1;
        proof {
            assert(decoder.pending() =~= s.skip((n0 + n1 + n2 + n3 + n4 + n5) as int));
        }
        let ghost p6 = decoder.pending();
        let ghost q6 = decoder.claimed();
        let x6 = match T6::borrow_decode(decoder) {
            Ok(v) => v,
            Err(e) => return Err(e),
        };
        let ghost n6: nat = T6::borrow_decoding(c, q6, p6)->Ok_0.1;
        proof {
            assert(decoder.pending() =~= s.skip((n0 + n1 + n2 + n3 + n4 + n5 + n6) as int));
        }
        let ghost p7 = decoder.pending();
        let ghost q7 = decoder.claimed();
        let x7 = match T7::borrow_decode(decoder) {
            Ok(v) => v,
            Err(e) => return Err(e),
        };
        let ghost n7: nat = T7::borrow_decoding(c, q7, p7)->Ok_0.1;
        proof {
            assert(decoder.pending() =~= s.skip((n0 + n1 + n2 + n3 + n4 + n5 + n6 + n7) as int));
        }
        let ghost p8 = decoder.pending();
        let ghost q8 = decoder.claimed();
        let x8 = match T8::borrow_decode(decoder) {
            Ok(v) => v,
            Err(e) => return Err(e),
        };
        let ghost n8: nat = T8::borrow_decoding(c, q8, p8)->Ok_0.1;
        proof {
            assert(decoder.pending() =~= s.skip((n0 + n1 + n2 + n3 + n4 + n5 + n6 + n7 + n8) as int));
        }
        let ghost p9 = decoder.pending();
        let ghost q9 = decoder.claimed();
        let x9 = match T9::borrow_decode(decoder) {
            Ok(v) => v,
            Err(e) => return Err(e),
        };
        let ghost n9: nat = T9::borrow_decoding(c, q9, p9)->Ok_0.1;
        proof {
            assert(decoder.pending() =~= s.skip((n0 + n1 + n2 + n3 + n4 + n5 + n6 + n7 + n8 + n9) as int));
        }
        let ghost p10 = decoder.pending();
        let ghost q10 = decoder.claimed();
        let x10 = match T10::borrow_decode(decoder) {
            Ok(v) => v,
            Err(e) => return Err(e),
        };
        let ghost n10: nat = T10::borrow_decoding(c, q10, p10)->Ok_0.1;
        proof {
            assert(decoder.pending() =~= s.skip((n0 + n1 + n2 + n3 + n4 + n5 + n6 + n7 + n8 + n9 + n10) as int));
        }
        let ghost p11 = decoder.pending();
        let ghost q11 = decoder.claimed();
        let x11 = match T11::borrow_decode(decoder) {
            Ok(v) => v,
            Err(e) => return Err(e),
        };
        let ghost n11: nat = T11::borrow_decoding(c, q11, p11)->Ok_0.1;
        proof {
            assert(decoder.pending() =~= s.skip((n0 + n1 + n2 + n3 + n4 + n5 + n6 + n7 + n8 + n9 + n10 + n11) as int));
        }
        let ghost p12 = decoder.pending();
        let ghost q12 = decoder.claimed();
        let x12 = match T12::borrow_decode(decoder) {
            Ok(v) => v,
            Err(e) => return Err(e),
        };
        let ghost n12: nat = T12::borrow_decoding(c, q12, p12)->Ok_0.1;
        proof {
            assert(decoder.pending() =~= s.skip((n0 + n1 + n2 + n3 + n4 + n5 + n6 + n7 + n8 + n9 + n10 + n11 + n12) as int));
        }
        let ghost p13 = decoder.pending();
        let ghost q13 = decoder.claimed();
        let x13 = match T13::borrow_decode(decoder) {
            Ok(v) => v,
            Err(e) => return Err(e),
        };
        let ghost n13: nat = T13::borrow_decoding(c, q13, p13)->Ok_0.1;
        proof {
            assert(decoder.pending() =~= s.skip((n0 + n1 + n2 + n3 + n4 + n5 + n6 + n7 + n8 + n9 + n10 + n11 + n12 + n13) as int));
        }
        let ghost p14 = decoder.pending();
        let ghost q14 = decoder.claimed();
        let x14 = match T14::borrow_decode(decoder) {
            Ok(v) => v,
            Err(e) => return Err(e),
        };
        let ghost n14: nat = T14::borrow_decoding(c, q14, p14)->Ok_0.1;
        proof {
            assert(decoder.pending() =~= s.skip((n0 + n1 + n2 + n3 + n4 + n5 + n6 + n7 + n8 + n9 + n10 + n11 + n12 + n13 + n14) as int));
        }
        Ok((x0, x1, x2, x3, x4, x5, x6, x7, x8, x9, x10, x11, x12, x13, x14))
    }
}

impl<T0: Model, T1: Model, T2: Model, T3: Model, T4: Model, T5: Model, T6: Model, T7: Model, T8: Model, T9: Model, T10: Model, T11: Model, T12: Model, T13: Model, T14: Model, T15: Model> Model for (T0, T1, T2, T3, T4, T5, T6, T7, T8, T9, T10, T11, T12, T13, T14, T15) {
    type V = (T0::V, T1::V, T2::V, T3::V, T4::V, T5::V, T6::V, T7::V, T8::V, T9::V, T10::V, T11::V, T12::V, T13::V, T14::V, T15::V);

    open spec fn model(&self) -> (T0::V, T1::V, T2::V, T3::V, T4::V, T5::V, T6::V, T7::V, T8::V, T9::V, T10::V, T11::V, T12::V, T13::V, T14::V, T15::V) {
        (self.0.model(), self.1.model(), self.2.model(), self.3.model(), self.4.model(), self.5.model(), self.6.model(), self.7.model(), self.8.model(), self.9.model(), self.10.model(), self.11.model(), self.12.model(), self.13.model(), self.14.model(), self.15.model())
    }

    open spec fn byte_sized() -> bool {
        false
    }

    fn is_byte_sized() -> (r: bool) {
        false
    }

    open spec fn byte_value(b: u8) -> (T0::V, T1::V, T2::V, T3::V, T4::V, T5::V, T6::V, T7::V, T8::V, T9::V, T10::V, T11::V, T12::V, T13::V, T14::V, T15::V) {
        (T0::byte_value(b), T1::byte_value(b), T2::byte_value(b), T3::byte_value(b), T4::byte_value(b), T5::byte_value(b), T6::byte_value(b), T7::byte_value(b), T8::byte_value(b), T9::byte_value(b), T10::byte_value(b), T11::byte_value(b), T12::byte_value(b), T13::byte_value(b), T14::byte_value(b), T15::byte_value(b))
    }

    open spec fn byte_of(&self) -> u8 {
        0
    }

    fn to_byte(&self) -> (b: u8) {
        0
    }
}

impl<Context, T0: Decode<Context>, T1: Decode<Context>, T2: Decode<Context>, T3: Decode<Context>, T4: Decode<Context>, T5: Decode<Context>, T6: Decode<Context>, T7: Decode<Context>, T8: Decode<Context>, T9: Decode<Context>, T10: Decode<Context>, T11: Decode<Context>, T12: Decode<Context>, T13: Decode<Context>, T14: Decode<Context>, T15: Decode<Context>> Decode<Context> for (T0, T1, T2, T3, T4, T5, T6, T7, T8, T9, T10, T11, T12, T13, T14, T15) {
    open spec fn decoding(c: Configuration, k: nat, s: Seq<u8>) -> Result<((T0::V, T1::V, T2::V, T3::V, T4::V, T5::V, T6::V, T7::V, T8::V, T9::V, T10::V, T11::V, T12::V, T13::V, T14::V, T15::V), nat, nat), DecodeError> {
        match T0::decoding(c, k, s) {
            Ok((v0, n0, k0)) => match T1::decoding(c, k0, s.skip((n0) as int)) {
                Ok((v1, n1, k1)) => match T2::decoding(c, k1, s.skip((n0 + n1) as int)) {
                    Ok((v2, n2, k2)) => match T3::decoding(c, k2, s.skip((n0 + n1 + n2) as int)) {
                        Ok((v3, n3, k3)) => match T4::decoding(c, k3, s.skip((n0 + n1 + n2 + n3) as int)) {
                            Ok((v4, n4, k4)) => match T5::decoding(c, k4, s.skip((n0 + n1 + n2 + n3 + n4) as int)) {
                                Ok((v5, n5, k5)) => match T6::decoding(c, k5, s.skip((n0 + n1 + n2 + n3 + n4 + n5) as int)) {
                                    Ok((v6, n6, k6)) => match T7::decoding(c, k6, s.skip((n0 + n1 + n2 + n3 + n4 + n5 + n6) as int)) {
                                        Ok((v7, n7, k7)) => match T8::decoding(c, k7, s.skip((n0 + n1 + n2 + n3 + n4 + n5 + n6 + n7) as int)) {
                                            Ok((v8, n8, k8)) => match T9::decoding(c, k8, s.skip((n0 + n1 + n2 + n3 + n4 + n5 + n6 + n7 + n8) as int)) {
                                                Ok((v9, n9, k9)) => match T10::decoding(c, k9, s.skip((n0 + n1 + n2 + n3 + n4 + n5 + n6 + n7 + n8 + n9) as int)) {
                                                    Ok((v10, n10, k10)) => match T11::decoding(c, k10, s.skip((n0 + n1 + n2 + n3 + n4 + n5 + n6 + n7 + n8 + n9 + n10) as int)) {
                                                        Ok((v11, n11, k11)) => match T12::decoding(c, k11, s.skip((n0 + n1 + n2 + n3 + n4 + n5 + n6 + n7 + n8 + n9 + n10 + n11) as int)) {
                                                            Ok((v12, n12, k12)) => match T13::decoding(c, k12, s.skip((n0 + n1 + n2 + n3 + n4 + n5 + n6 + n7 + n8 + n9 + n10 + n11 + n12) as int)) {
                                                                Ok((v13, n13, k13)) => match T14::decoding(c, k13, s.skip((n0 + n1 + n2 + n3 + n4 + n5 + n6 + n7 + n8 + n9 + n10 + n11 + n12 + n13) as int)) {
                                                                    Ok((v14, n14, k14)) => match T15::decoding(c, k14, s.skip((n0 + n1 + n2 + n3 + n4 + n5 + n6 + n7 + n8 + n9 + n10 + n11 + n12 + n13 + n14) as int)) {
                                                                        Ok((v15, n15, k15)) => Ok(((v0, v1, v2, v3, v4, v5, v6, v7, v8, v9, v10, v11, v12, v13, v14, v15), n0 + n1 + n2 + n3 + n4 + n5 + n6 + n7 + n8 + n9 + n10 + n11 + n12 + n13 + n14 + n15, k15)),
                                                                        Err(e) => Err(e),
                                                                    },
                                                                    Err(e) => Err(e),
                                                                },
                                                                Err(e) => Err(e),
                                                            },
                                                            Err(e) => Err(e),
                                                        },
                                                        Err(e) => Err(e),
                                                    },
                                                    Err(e) => Err(e),
                                                },
                                                Err(e) => Err(e),
                                            },
                                            Err(e) => Err(e),
                                        },
                                        Err(e) => Err(e),
                                    },
                                    Err(e) => Err(e),
                                },
                                Err(e) => Err(e),
                            },
                            Err(e) => Err(e),
                        },
                        Err(e) => Err(e),
                    },
                    Err(e) => Err(e),
                },
                Err(e) => Err(e),
            },
            Err(e) => Err(e),
        }
    }

    fn from_byte(b: u8) -> (r: Option<Self>) {
        None
    }

    fn decode<D: Decoder<Context = Context>>(decoder: &mut D) -> (r: Result<Self, DecodeError>) {
        let ghost c = decoder.settings();
        let ghost s = decoder.pending();
        let ghost p0 = decoder.pending();
        let ghost q0 = decoder.claimed();
        let x0 = match T0::decode(decoder) {
            Ok(v) => v,
            Err(e) => return Err(e),
        };
        let ghost n0: nat = T0::decoding(c, q0, p0)->Ok_0.1;
        proof {
            assert(decoder.pending() =~= s.skip(n0 as int));
        }
        let ghost p1 = decoder.pending();
        let ghost q1 = decoder.claimed();
        let x1 = match T1::decode(decoder) {
            Ok(v) => v,
            Err(e) => return Err(e),
        };
        let ghost n1: nat = T1::decoding(c, q1, p1)->Ok_0.1;
        proof {
            assert(decoder.pending() =~= s.skip((n0 + n1) as int));
        }
        let ghost p2 = decoder.pending();
        let ghost q2 = decoder.claimed();
        let x2 = match T2::decode(decoder) {
            Ok(v) => v,
            Err(e) => return Err(e),
        };
        let ghost n2: nat = T2::decoding(c, q2, p2)->Ok_0.1;
        proof {
            assert(decoder.pending() =~= s.skip((n0 + n1 + n2) as int));
        }
        let ghost p3 = decoder.pending();
        let ghost q3 = decoder.claimed();
        let x3 = match T3::decode(decoder) {
            Ok(v) => v,
            Err(e) => return Err(e),
        };
        let ghost n3: nat = T3::decoding(c, q3, p3)->Ok_0.1;
        proof {
            assert(decoder.pending() =~= s.skip((n0 + n1 + n2 + n3) as int));
        }
        let ghost p4 = decoder.pending();
        let ghost q4 = decoder.claimed();
        let x4 = match T4::decode(decoder) {
            Ok(v) => v,
            Err(e) => return Err(e),
        };
        let ghost n4: nat = T4::decoding(c, q4, p4)->Ok_0.1;
        proof {
            assert(decoder.pending() =~= s.skip((n0 + n1 + n2 + n3 + n4) as int));
        }
        let ghost p5 = decoder.pending();
        let ghost q5 = decoder.claimed();
        let x5 = match T5::decode(decoder) {
            Ok(v) => v,
            Err(e) => return Err(e),
        };
        let ghost n5: nat = T5::decoding(c, q5, p5)->Ok_0.1;
        proof {
            assert(decoder.pending() =~= s.skip((n0 + n1 + n2 + n3 + n4 + n5) as int));
        }
        let ghost p6 = decoder.pending();
        let ghost q6 = decoder.claimed();
        let x6 = match T6::decode(decoder) {
            Ok(v) => v,
            Err(e) => return Err(e),
        };
        let ghost n6: nat = T6::decoding(c, q6, p6)->Ok_0.1;
        proof {
            assert(decoder.pending() =~= s.skip((n0 + n1 + n2 + n3 + n4 + n5 + n6) as int));
        }
        let ghost p7 = decoder.pending();
        let ghost q7 = decoder.claimed();
        let x7 = match T7::decode(decoder) {
            Ok(v) => v,
            Err(e) => return Err(e),
        };
        let ghost n7: nat = T7::decoding(c, q7, p7)->Ok_0.1;
        proof {
            assert(decoder.pending() =~= s.skip((n0 + n1 + n2 + n3 + n4 + n5 + n6 + n7) as int));
        }
        let ghost p8 = decoder.pending();
        let ghost q8 = decoder.claimed();
        let x8 = match T8::decode(decoder) {
            Ok(v) => v,
            Err(e) => return Err(e),
        };
        let ghost n8: nat = T8::decoding(c, q8, p8)->Ok_0.1;
        proof {
            assert(decoder.pending() =~= s.skip((n0 + n1 + n2 + n3 + n4 + n5 + n6 + n7 + n8) as int));
        }
        let ghost p9 = decoder.pending();
        let ghost q9 = decoder.claimed();
        let x9 = match T9::decode(decoder) {
            Ok(v) => v,
            Err(e) => return Err(e),
        };
        let ghost n9: nat = T9::decoding(c, q9, p9)->Ok_0.1;
        proof {
            assert(decoder.pending() =~= s.skip((n0 + n1 + n2 + n3 + n4 + n5 + n6 + n7 + n8 + n9) as int));
        }
        let ghost p10 = decoder.pending();
        let ghost q10 = decoder.claimed();
        let x10 = match T10::decode(decoder) {
            Ok(v) => v,
            Err(e) => return Err(e),
        };
        let ghost n10: nat = T10::decoding(c, q10, p10)->Ok_0.1;
        proof {
            assert(decoder.pending() =~= s.skip((n0 + n1 + n2 + n3 + n4 + n5 + n6 + n7 + n8 + n9 + n10) as int));
        }
        let ghost p11 = decoder.pending();
        let ghost q11 = decoder.claimed();
        let x11 = match T11::decode(decoder) {
            Ok(v) => v,
            Err(e) => return Err(e),
        };
        let ghost n11: nat = T11::decoding(c, q11, p11)->Ok_0.1;
        proof {
            assert(decoder.pending() =~= s.skip((n0 + n1 + n2 + n3 + n4 + n5 + n6 + n7 + n8 + n9 + n10 + n11) as int));
        }
        let ghost p12 = decoder.pending();
        let ghost q12 = decoder.claimed();
        let x12 = match T12::decode(decoder) {
            Ok(v) => v,
            Err(e) => return Err(e),
        };
        let ghost n12: nat = T12::decoding(c, q12, p12)->Ok_0.1;
        proof {
            assert(decoder.pending() =~= s.skip((n0 + n1 + n2 + n3 + n4 + n5 + n6 + n7 + n8 + n9 + n10 + n11 + n12) as int));
        }
        let ghost p13 = decoder.pending();
        let ghost q13 = decoder.claimed();
        let x13 = match T13::decode(decoder) {
            Ok(v) => v,
            Err(e) => return Err(e),
        };
        let ghost n13: nat = T13::decoding(c, q13, p13)->Ok_0.1;
        proof {
            assert(decoder.pending() =~= s.skip((n0 + n1 + n2 + n3 + n4 + n5 + n6 + n7 + n8 + n9 + n10 + n11 + n12 + n13) as int));
        }
        let ghost p14 = decoder.pending();
        let ghost q14 = decoder.claimed();
        let x14 = match T14::decode(decoder) {
            Ok(v) => v,
            Err(e) => return Err(e),
        };
        let ghost n14: nat = T14::decoding(c, q14, p14)->Ok_0.1;
        proof {
            assert(decoder.pending() =~= s.skip((n0 + n1 + n2 + n3 + n4 + n5 + n6 + n7 + n8 + n9 + n10 + n11 + n12 + n13 + n14) as int));
        }
        let ghost p15 = decoder.pending();
        let ghost q15 = decoder.claimed();
        let x15 = match T15::decode(decoder) {
            Ok(v) => v,
            Err(e) => return Err(e),
        };
        let ghost n15: nat = T15::decoding(c, q15, p15)->Ok_0.1;
        proof {
            assert(decoder.pending() =~= s.skip((n0 + n1 + n2 + n3 + n4 + n5 + n6 + n7 + n8 + n9 + n10 + n11 + n12 + n13 + n14 + n15) as int));
        }
        Ok((x0, x1, x2, x3, x4, x5, x6, x7, x8, x9, x10, x11, x12, x13, x14, x15))
    }
}

impl<'de, Context, T0: BorrowDecode<'de, Context>, T1: BorrowDecode<'de, Context>, T2: BorrowDecode<'de, Context>, T3: BorrowDecode<'de, Context>, T4: BorrowDecode<'de, Context>, T5: BorrowDecode<'de, Context>, T6: BorrowDecode<'de, Context>, T7: BorrowDecode<'de, Context>, T8: BorrowDecode<'de, Context>, T9: BorrowDecode<'de, Context>, T10: BorrowDecode<'de, Context>, T11: BorrowDecode<'de, Context>, T12: BorrowDecode<'de, Context>, T13: BorrowDecode<'de, Context>, T14: BorrowDecode<'de, Context>, T15: BorrowDecode<'de, Context>> BorrowDecode<'de, Context> for (T0, T1, T2, T3, T4, T5, T6, T7, T8, T9, T10, T11, T12, T13, T14, T15) {
    open spec fn borrow_decoding(c: Configuration, k: nat, s: Seq<u8>) -> Result<((T0::V, T1::V, T2::V, T3::V, T4::V, T5::V, T6::V, T7::V, T8::V, T9::V, T10::V, T11::V, T12::V, T13::V, T14::V, T15::V), nat, nat), DecodeError> {
        match T0::borrow_decoding(c, k, s) {
            Ok((v0, n0, k0)) => match T1::borrow_decoding(c, k0, s.skip((n0) as int)) {
                Ok((v1, n1, k1)) => match T2::borrow_decoding(c, k1, s.skip((n0 + n1) as int)) {
                    Ok((v2, n2, k2)) => match T3::borrow_decoding(c, k2, s.skip((n0 + n1 + n2) as int)) {
                        Ok((v3, n3, k3)) => match T4::borrow_decoding(c, k3, s.skip((n0 + n1 + n2 + n3) as int)) {
                            Ok((v4, n4, k4)) => match T5::borrow_decoding(c, k4, s.skip((n0 + n1 + n2 + n3 + n4) as int)) {
                                Ok((v5, n5, k5)) => match T6::borrow_decoding(c, k5, s.skip((n0 + n1 + n2 + n3 + n4 + n5) as int)) {
                                    Ok((v6, n6, k6)) => match T7::borrow_decoding(c, k6, s.skip((n0 + n1 + n2 + n3 + n4 + n5 + n6) as int)) {
                                        Ok((v7, n7, k7)) => match T8::borrow_decoding(c, k7, s.skip((n0 + n1 + n2 + n3 + n4 + n5 + n6 + n7) as int)) {
                                            Ok((v8, n8, k8)) => match T9::borrow_decoding(c, k8, s.skip((n0 + n1 + n2 + n3 + n4 + n5 + n6 + n7 + n8) as int)) {
                                                Ok((v9, n9, k9)) => match T10::borrow_decoding(c, k9, s.skip((n0 + n1 + n2 + n3 + n4 + n5 + n6 + n7 + n8 + n9) as int)) {
                                                    Ok((v10, n10, k10)) => match T11::borrow_decoding(c, k10, s.skip((n0 + n1 + n2 + n3 + n4 + n5 + n6 + n7 + n8 + n9 + n10) as int)) {
                                                        Ok((v11, n11, k11)) => match T12::borrow_decoding(c, k11, s.skip((n0 + n1 + n2 + n3 + n4 + n5 + n6 + n7 + n8 + n9 + n10 + n11) as int)) {
                                                            Ok((v12, n12, k12)) => match T13::borrow_decoding(c, k12, s.skip((n0 + n1 + n2 + n3 + n4 + n5 + n6 + n7 + n8 + n9 + n10 + n11 + n12) as int)) {
                                                                Ok((v13, n13, k13)) => match T14::borrow_decoding(c, k13, s.skip((n0 + n1 + n2 + n3 + n4 + n5 + n6 + n7 + n8 + n9 + n10 + n11 + n12 + n13) as int)) {
                                                                    Ok((v14, n14, k14)) => match T15::borrow_decoding(c, k14, s.skip((n0 + n1 + n2 + n3 + n4 + n5 + n6 + n7 + n8 + n9 + n10 + n11 + n12 + n13 + n14) as int)) {
                                                                        Ok((v15, n15, k15)) => Ok(((v0, v1, v2, v3, v4, v5, v6, v7, v8, v9, v10, v11, v12, v13, v14, v15), n0 + n1 + n2 + n3 + n4 + n5 + n6 + n7 + n8 + n9 + n10 + n11 + n12 + n13 + n14 + n15, k15)),
                                                                        Err(e) => Err(e),
                                                                    },
                                                                    Err(e) => Err(e),
                                                                },
                                                                Err(e) => Err(e),
                                                            },
                                                            Err(e) => Err(e),
                                                        },
                                                        Err(e) => Err(e),
                                                    },
                                                    Err(e) => Err(e),
                                                },
                                                Err(e) => Err(e),
                                            },
                                            Err(e) => Err(e),
                                        },
                                        Err(e) => Err(e),
                                    },
                                    Err(e) => Err(e),
                                },
                                Err(e) => Err(e),
                            },
                            Err(e) => Err(e),
                        },
                        Err(e) => Err(e),
                    },
                    Err(e) => Err(e),
                },
                Err(e) => Err(e),
            },
            Err(e) => Err(e),
        }
    }

    fn borrow_from_byte(b: u8) -> (r: Option<Self>) {
        None
    }

    fn borrow_decode<D: BorrowDecoder<'de, Context = Context>>(decoder: &mut D) -> (r: Result<Self, DecodeError>) {
        let ghost c = decoder.settings();
        let ghost s = decoder.pending();
        let ghost p0 = decoder.pending();
        let ghost q0 = decoder.claimed();
        let x0 = match T0::borrow_decode(decoder) {
            Ok(v) => v,
            Err(e) => return Err(e),
        };
        let ghost n0: nat = T0::borrow_decoding(c, q0, p0)->Ok_0.1;
        proof {
            assert(decoder.pending() =~= s.skip(n0 as int));
        }
        let ghost p1 = decoder.pending();
        let ghost q1 = decoder.claimed();
        let x1 = match T1::borrow_decode(decoder) {
            Ok(v) => v,
            Err(e) => return Err(e),
        };
        let ghost n1: nat = T1::borrow_decoding(c, q1, p1)->Ok_0.1;
        proof {
            assert(decoder.pending() =~= s.skip((n0 + n1) as int));
        }
        let ghost p2 = decoder.pending();
        let ghost q2 = decoder.claimed();
        let x2 = match T2::borrow_decode(decoder) {
            Ok(v) => v,
            Err(e) => return Err(e),
        };
        let ghost n2: nat = T2::borrow_decoding(c, q2, p2)->Ok_0.1;
        proof {
            assert(decoder.pending() =~= s.skip((n0 + n1 + n2) as int));
        }
        let ghost p3 = decoder.pending();
        let ghost q3 = decoder.claimed();
        let x3 = match T3::borrow_decode(decoder) {
            Ok(v) => v,
            Err(e) => return Err(e),
        };
        let ghost n3: nat = T3::borrow_decoding(c, q3, p3)->Ok_0.1;
        proof {
            assert(decoder.pending() =~= s.skip((n0 + n1 + n2 + n3) as int));
        }
        let ghost p4 = decoder.pending();
        let ghost q4 = decoder.claimed();
        let x4 = match T4::borrow_decode(decoder) {
            Ok(v) => v,
            Err(e) => return Err(e),
        };
        let ghost n4: nat = T4::borrow_decoding(c, q4, p4)->Ok_0.1;
        proof {
            assert(decoder.pending() =~= s.skip((n0 + n1 + n2 + n3 + n4) as int));
        }
        let ghost p5 = decoder.pending();
        let ghost q5 = decoder.claimed();
        let x5 = match T5::borrow_decode(decoder) {
            Ok(v) => v,
            Err(e) => return Err(e),
        };
        let ghost n5: nat = T5::borrow_decoding(c, q5, p5)->Ok_0.1;
        proof {
            assert(decoder.pending() =~= s.skip((n0 + n1 + n2 + n3 + n4 + n5) as int));
        }
        let ghost p6 = decoder.pending();
        let ghost q6 = decoder.claimed();
        let x6 = match T6::borrow_decode(decoder) {
            Ok(v) => v,
            Err(e) => return Err(e),
        };
        let ghost n6: nat = T6::borrow_decoding(c, q6, p6)->Ok_0.1;
        proof {
            assert(decoder.pending() =~= s.skip((n0 + n1 + n2 + n3 + n4 + n5 + n6) as int));
        }
        let ghost p7 = decoder.pending();
        let ghost q7 = decoder.claimed();
        let x7 = match T7::borrow_decode(decoder) {
            Ok(v) => v,
            Err(e) => return Err(e),
        };
        let ghost n7: nat = T7::borrow_decoding(c, q7, p7)->Ok_0.1;
        proof {
            assert(decoder.pending() =~= s.skip((n0 + n1 + n2 + n3 + n4 + n5 + n6 + n7) as int));
        }
        let ghost p8 = decoder.pending();
        let ghost q8 = decoder.claimed();
        let x8 = match T8::borrow_decode(decoder) {
            Ok(v) => v,
            Err(e) => return Err(e),
        };
        let ghost n8: nat = T8::borrow_decoding(c, q8, p8)->Ok_0.1;
        proof {
            assert(decoder.pending() =~= s.skip((n0 + n1 + n2 + n3 + n4 + n5 + n6 + n7 + n8) as int));
        }
        let ghost p9 = decoder.pending();
        let ghost q9 = decoder.claimed();
        let x9 = match T9::borrow_decode(decoder) {
            Ok(v) => v,
            Err(e) => return Err(e),
        };
        let ghost n9: nat = T9::borrow_decoding(c, q9, p9)->Ok_0.1;
        proof {
            assert(decoder.pending() =~= s.skip((n0 + n1 + n2 + n3 + n4 + n5 + n6 + n7 + n8 + n9) as int));
        }
        let ghost p10 = decoder.pending();
        let ghost q10 = decoder.claimed();
        let x10 = match T10::borrow_decode(decoder) {
            Ok(v) => v,
            Err(e) => return Err(e),
        };
        let ghost n10: nat = T10::borrow_decoding(c, q10, p10)->Ok_0.1;
        proof {
            assert(decoder.pending() =~= s.skip((n0 + n1 + n2 + n3 + n4 + n5 + n6 + n7 + n8 + n9 + n10) as int));
        }
        let ghost p11 = decoder.pending();
        let ghost q11 = decoder.claimed();
        let x11 = match T11::borrow_decode(decoder) {
            Ok(v) => v,
            Err(e) => return Err(e),
        };
        let ghost n11: nat = T11::borrow_decoding(c, q11, p11)->Ok_0.1;
        proof {
            assert(decoder.pending() =~= s.skip((n0 + n1 + n2 + n3 + n4 + n5 + n6 + n7 + n8 + n9 + n10 + n11) as int));
        }
        let ghost p12 = decoder.pending();
        let ghost q12 = decoder.claimed();
        let x12 = match T12::borrow_decode(decoder) {
            Ok(v) => v,
            Err(e) => return Err(e),
        };
        let ghost n12: nat = T12::borrow_decoding(c, q12, p12)->Ok_0.1;
        proof {
            assert(decoder.pending() =~= s.skip((n0 + n1 + n2 + n3 + n4 + n5 + n6 + n7 + n8 + n9 + n10 + n11 + n12) as int));
        }
        let ghost p13 = decoder.pending();
        let ghost q13 = decoder.claimed();
        let x13 = match T13::borrow_decode(decoder) {
            Ok(v) => v,
            Err(e) => return Err(e),
        };
        let ghost n13: nat = T13::borrow_decoding(c, q13, p13)->Ok_0.1;
        proof {
            assert(decoder.pending() =~= s.skip((n0 + n1 + n2 + n3 + n4 + n5 + n6 + n7 + n8 + n9 + n10 + n11 + n12 + n13) as int));
        }
        let ghost p14 = decoder.pending();
        let ghost q14 = decoder.claimed();
        let x14 = match T14::borrow_decode(decoder) {
            Ok(v) => v,
            Err(e) => return Err(e),
        };
        let ghost n14: nat = T14::borrow_decoding(c, q14, p14)->Ok_0.1;
        proof {
            assert(decoder.pending() =~= s.skip((n0 + n1 + n2 + n3 + n4 + n5 + n6 + n7 + n8 + n9 + n10 + n11 + n12 + n13 + n14) as int));
        }
        let ghost p15 = decoder.pending();
        let ghost q15 = decoder.claimed();
        let x15 = match T15::borrow_decode(decoder) {
            Ok(v) => v,
            Err(e) => return Err(e),
        };
        let ghost n15: nat = T15::borrow_decoding(c, q15, p15)->Ok_0.1;
        proof {
            assert(decoder.pending() =~= s.skip((n0 + n1 + n2 + n3 + n4 + n5 + n6 + n7 + n8 + n9 + n10 + n11 + n12 + n13 + n14 + n15) as int));
        }
        Ok((x0, x1, x2, x3, x4, x5, x6, x7, x8, x9, x10, x11, x12, x13, x14, x15))
    }
}

} // verus!
