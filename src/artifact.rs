//! The proof artifact: a proving payload with the verifying key that checks it, and its
//! durable text form `{"proof":"<hex>","vk":"<hex>"}`.
use vstd::prelude::*;
use crate::error::ProverError;
use crate::hex::{hex_of, is_digit, lemma_hex_injective, lemma_hex_shape, parse_hex, push_hex};

verus! {

/// A proving payload and the encoded verifying key of the circuit instance that made it.
#[derive(Clone, Debug)]
pub struct Proof {
    pub proof: Vec<u8>,
    pub vk: Vec<u8>,
}

impl View for Proof {
    /// The payload bytes and the verifying-key bytes.
    type V = (Seq<u8>, Seq<u8>);

    open spec fn view(&self) -> (Seq<u8>, Seq<u8>) {
        (self.proof@, self.vk@)
    }
}

/// The byte of `"`, which ends each run of digits.
pub const QUOTE: u8 = 34;

/// `{"proof":"`
pub open spec fn head() -> Seq<u8> {
    seq![123u8, 34, 112, 114, 111, 111, 102, 34, 58, 34]
}

/// `","vk":"`
pub open spec fn middle() -> Seq<u8> {
    seq![34u8, 44, 34, 118, 107, 34, 58, 34]
}

/// `"}`
pub open spec fn tail() -> Seq<u8> {
    seq![34u8, 125]
}

/// The text form of an artifact.
pub open spec fn encode(a: (Seq<u8>, Seq<u8>)) -> Seq<u8> {
    head() + hex_of(a.0) + middle() + hex_of(a.1) + tail()
}

/// The artifact whose text form is `bytes`, if there is one.
pub open spec fn decode(bytes: Seq<u8>) -> Option<(Seq<u8>, Seq<u8>)> {
    if exists|a: (Seq<u8>, Seq<u8>)| encode(a) == bytes {
        Some(choose|a: (Seq<u8>, Seq<u8>)| encode(a) == bytes)
    } else {
        None
    }
}

/// Where each part of an artifact's text stands: the payload digits run from offset 10
/// up to the first quote after them, and the key digits up to the next quote.
pub proof fn lemma_encode_layout(a: (Seq<u8>, Seq<u8>))
    ensures
        ({
            let x = encode(a);
            let p = hex_of(a.0).len() as int;
            let v = hex_of(a.1).len() as int;
            &&& x.len() == 20 + p + v
            &&& x.subrange(0, 10) == head()
            &&& x.subrange(10, 10 + p) == hex_of(a.0)
            &&& x.subrange(10 + p, 18 + p) == middle()
            &&& x.subrange(18 + p, 18 + p + v) == hex_of(a.1)
            &&& x.subrange(18 + p + v, 20 + p + v) == tail()
            &&& forall|t: int| 10 <= t < 10 + p ==> #[trigger] x[t] != QUOTE
            &&& x[10 + p] == QUOTE
            &&& forall|t: int| 18 + p <= t < 18 + p + v ==> #[trigger] x[t] != QUOTE
            &&& x[18 + p + v] == QUOTE
        }),
{
    let x = encode(a);
    let hp = hex_of(a.0);
    let hv = hex_of(a.1);
    let p = hp.len() as int;
    let v = hv.len() as int;
    lemma_hex_shape(a.0);
    lemma_hex_shape(a.1);
    assert(x.subrange(0, 10) =~= head());
    assert(x.subrange(10, 10 + p) =~= hp);
    assert(x.subrange(10 + p, 18 + p) =~= middle());
    assert(x.subrange(18 + p, 18 + p + v) =~= hv);
    assert(x.subrange(18 + p + v, 20 + p + v) =~= tail());
    assert forall|t: int| 10 <= t < 10 + p implies #[trigger] x[t] != QUOTE by {
        assert(x[t] == hp[t - 10]);
        assert(is_digit(hp[t - 10]));
    }
    assert forall|t: int| 18 + p <= t < 18 + p + v implies #[trigger] x[t] != QUOTE by {
        assert(x[t] == hv[t - 18 - p]);
        assert(is_digit(hv[t - 18 - p]));
    }
    assert(x[10 + p] == middle()[0]);
    assert(x[18 + p + v] == tail()[0]);
}

/// Reading back the text form of any artifact gives that artifact, field for field.
pub proof fn lemma_round_trip(a: (Seq<u8>, Seq<u8>))
    ensures
        decode(encode(a)) == Some(a),
{
    let b = choose|b: (Seq<u8>, Seq<u8>)| encode(b) == encode(a);
    lemma_encode_injective(a, b);
}

/// Two artifacts with the same text are the same artifact.
pub proof fn lemma_encode_injective(a: (Seq<u8>, Seq<u8>), b: (Seq<u8>, Seq<u8>))
    requires
        encode(a) == encode(b),
    ensures
        a == b,
{
    let x = encode(a);
    lemma_encode_layout(a);
    lemma_encode_layout(b);
    let pa = hex_of(a.0).len() as int;
    let pb = hex_of(b.0).len() as int;
    if pa < pb {
        assert(x[10 + pa] != QUOTE);
    } else if pb < pa {
        assert(x[10 + pb] != QUOTE);
    }
    lemma_hex_injective(a.0, b.0);
    let va = hex_of(a.1).len() as int;
    let vb = hex_of(b.1).len() as int;
    if va < vb {
        assert(x[18 + pa + va] != QUOTE);
    } else if vb < va {
        assert(x[18 + pa + vb] != QUOTE);
    }
    lemma_hex_injective(a.1, b.1);
}

fn head_bytes() -> (r: Vec<u8>)
    ensures
        r@ == head(),
{
    let r: Vec<u8> = vec![123u8, 34, 112, 114, 111, 111, 102, 34, 58, 34];
    assert(r@ =~= head());
    r
}

fn middle_bytes() -> (r: Vec<u8>)
    ensures
        r@ == middle(),
{
    let r: Vec<u8> = vec![34u8, 44, 34, 118, 107, 34, 58, 34];
    assert(r@ =~= middle());
    r
}

fn tail_bytes() -> (r: Vec<u8>)
    ensures
        r@ == tail(),
{
    let r: Vec<u8> = vec![34u8, 125];
    assert(r@ =~= tail());
    r
}

fn push_all(out: &mut Vec<u8>, src: &[u8])
    ensures
        final(out)@ == old(out)@ + src@,
{
    let ghost start = out@;
    let mut i: usize = 0;
    while i < src.len()
        invariant
            i <= src@.len(),
            out@ == start + src@.subrange(0, i as int),
        decreases src@.len() - i,
    {
        out.push(src[i]);
        i += 1;
        assert(src@.subrange(0, i as int) =~= src@.subrange(0, i - 1).push(src@[i - 1]));
    }
    assert(src@.subrange(0, src@.len() as int) =~= src@);
}

/// Whether `pat` stands in `bytes` at offset `at`.
fn matches_at(bytes: &[u8], at: usize, pat: &[u8]) -> (r: bool)
    ensures
        r == (at + pat@.len() <= bytes@.len() && bytes@.subrange(at as int, at + pat@.len())
            == pat@),
{
    if at > bytes.len() || pat.len() > bytes.len() - at {
        return false;
    }
    let end = at + pat.len();
    let mut i: usize = 0;
    while i < pat.len()
        invariant
            end == at + pat@.len(),
            end <= bytes@.len(),
            i <= pat@.len(),
            forall|t: int| 0 <= t < i ==> bytes@[at + t] == pat@[t],
        decreases pat@.len() - i,
    {
        if bytes[at + i] != pat[i] {
            assert(bytes@.subrange(at as int, at + pat@.len())[i as int] != pat@[i as int]);
            return false;
        }
        i += 1;
    }
    assert(bytes@.subrange(at as int, at + pat@.len()) =~= pat@);
    true
}

/// The first quote at or after `from`.
fn find_quote(bytes: &[u8], from: usize) -> (r: Option<usize>)
    ensures
        match r {
            Some(j) => from <= j < bytes@.len() && bytes@[j as int] == QUOTE && forall|t: int|
                from <= t < j ==> bytes@[t] != QUOTE,
            None => forall|t: int| from <= t < bytes@.len() ==> bytes@[t] != QUOTE,
        },
{
    let mut j: usize = from;
    while j < bytes.len()
        invariant
            from <= j,
            forall|t: int| from <= t < j ==> bytes@[t] != QUOTE,
        decreases bytes@.len() - j,
    {
        if bytes[j] == QUOTE {
            return Some(j);
        }
        j += 1;
    }
    None
}

impl Proof {
    /// Assembles an artifact from the engine's payload and the encoded verifying key; an
    /// empty payload or key is malformed and gives `Assembly`.
    pub fn from_snark(snark: Vec<u8>, vk: Vec<u8>) -> (r: Result<Proof, ProverError>)
        ensures
            match r {
                Ok(p) => snark@.len() > 0 && vk@.len() > 0 && p@ == (snark@, vk@),
                Err(e) => (snark@.len() == 0 || vk@.len() == 0) && e is Assembly,
            },
    {
        if snark.len() == 0 || vk.len() == 0 {
            Err(ProverError::Assembly)
        } else {
            Ok(Proof { proof: snark, vk })
        }
    }

    /// The text form of this artifact.
    pub fn to_json(&self) -> (r: Vec<u8>)
        ensures
            r@ == encode(self@),
    {
        let mut out = head_bytes();
        push_hex(&mut out, self.proof.as_slice());
        push_all(&mut out, middle_bytes().as_slice());
        push_hex(&mut out, self.vk.as_slice());
        push_all(&mut out, tail_bytes().as_slice());
        out
    }

    /// Reads an artifact back from its text form; truncated or foreign bytes give
    /// `Deserialization`.
    pub fn from_json(bytes: &[u8]) -> (r: Result<Proof, ProverError>)
        ensures
            match r {
                Ok(a) => decode(bytes@) == Some(a@),
                Err(e) => decode(bytes@) is None && e is Deserialization,
            },
    {
        let ghost x = bytes@;
        if !matches_at(bytes, 0, head_bytes().as_slice()) {
            proof {
                if exists|a: (Seq<u8>, Seq<u8>)| encode(a) == x {
                    let a = choose|a: (Seq<u8>, Seq<u8>)| encode(a) == x;
                    lemma_encode_layout(a);
                }
            }
            return Err(ProverError::Deserialization);
        }
        let j = match find_quote(bytes, 10) {
            Some(j) => j,
            None => {
                proof {
                    if exists|a: (Seq<u8>, Seq<u8>)| encode(a) == x {
                        let a = choose|a: (Seq<u8>, Seq<u8>)| encode(a) == x;
                        lemma_encode_layout(a);
                        assert(x[10 + hex_of(a.0).len() as int] == QUOTE);
                    }
                }
                return Err(ProverError::Deserialization);
            },
        };
        // Whatever follows, an artifact whose text this is has its payload digits
        // exactly up to `j`.
        proof {
            if exists|a: (Seq<u8>, Seq<u8>)| encode(a) == x {
                let a = choose|a: (Seq<u8>, Seq<u8>)| encode(a) == x;
                lemma_encode_layout(a);
                let p = hex_of(a.0).len() as int;
                if j < 10 + p {
                    assert(x[j as int] != QUOTE);
                }
                if j > 10 + p {
                    assert(x[10 + p] == QUOTE);
                }
            }
        }
        let mid = middle_bytes();
        assert(mid@.len() == 8);
        let n = bytes.len();
        if !matches_at(bytes, j, mid.as_slice()) {
            proof {
                if exists|a: (Seq<u8>, Seq<u8>)| encode(a) == x {
                    let a = choose|a: (Seq<u8>, Seq<u8>)| encode(a) == x;
                    lemma_encode_layout(a);
                }
            }
            return Err(ProverError::Deserialization);
        }
        let k = match find_quote(bytes, j + 8) {
            Some(k) => k,
            None => {
                proof {
                    if exists|a: (Seq<u8>, Seq<u8>)| encode(a) == x {
                        let a = choose|a: (Seq<u8>, Seq<u8>)| encode(a) == x;
                        lemma_encode_layout(a);
                        assert(x[18 + hex_of(a.0).len() + hex_of(a.1).len() as int] == QUOTE);
                    }
                }
                return Err(ProverError::Deserialization);
            },
        };
        proof {
            if exists|a: (Seq<u8>, Seq<u8>)| encode(a) == x {
                let a = choose|a: (Seq<u8>, Seq<u8>)| encode(a) == x;
                lemma_encode_layout(a);
                let e = 18 + hex_of(a.0).len() as int + hex_of(a.1).len() as int;
                if k < e {
                    assert(x[k as int] != QUOTE);
                }
                if k > e {
                    assert(x[e] == QUOTE);
                }
            }
        }
        if n - k != 2 || !matches_at(bytes, k, tail_bytes().as_slice()) {
            proof {
                if exists|a: (Seq<u8>, Seq<u8>)| encode(a) == x {
                    let a = choose|a: (Seq<u8>, Seq<u8>)| encode(a) == x;
                    lemma_encode_layout(a);
                }
            }
            return Err(ProverError::Deserialization);
        }
        let proof_bytes = parse_hex(bytes, 10, j);
        let vk_bytes = parse_hex(bytes, j + 8, k);
        match (proof_bytes, vk_bytes) {
            (Some(p), Some(v)) => {
                let r = Proof { proof: p, vk: v };
                proof {
                    assert(x =~= encode(r@));
                    assert(exists|a: (Seq<u8>, Seq<u8>)| encode(a) == x);
                    let a = choose|a: (Seq<u8>, Seq<u8>)| encode(a) == x;
                    lemma_encode_injective(a, r@);
                }
                Ok(r)
            },
            _ => {
                proof {
                    if exists|a: (Seq<u8>, Seq<u8>)| encode(a) == x {
                        let a = choose|a: (Seq<u8>, Seq<u8>)| encode(a) == x;
                        lemma_encode_layout(a);
                    }
                }
                Err(ProverError::Deserialization)
            },
        }
    }
}

} // verus!
