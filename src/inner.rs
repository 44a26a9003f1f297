//! The cache-or-generate decision for one inner proof, and the prover it is made for.
//!
//! Reading and writing files, folding traces and running the proving engine happen
//! outside; each outcome comes back as an [`Event`], and [`Session::handle`] says what
//! to do next as a [`Step`].
use vstd::prelude::*;
use vstd::string::StringExecFns;
use crate::artifact::{decode, encode, lemma_round_trip, Proof};
use crate::error::ProverError;
use std::marker::PhantomData;

verus! {

/// The circuit size class that inner proofs are made for.
pub const INNER_DEGREE: u32 = 20;

/// A family of circuits that a prover is bound to for its whole life.
pub trait TargetCircuit {
}

/// A prover for circuit kind `C`: where its public parameters live and the circuit sizes
/// it loads them for.
pub struct Prover<C: TargetCircuit> {
    pub params_dir: String,
    pub degrees: Vec<u32>,
    pub phantom: PhantomData<C>,
}

impl<C: TargetCircuit> Prover<C> {
    /// A prover that loads the parameters under `params_dir` for the inner degree.
    pub fn from_params_dir(params_dir: &str) -> (r: Self)
        ensures
            r.params_dir@ == params_dir@,
            r.degrees@ == seq![INNER_DEGREE],
    {
        let degrees: Vec<u32> = vec![INNER_DEGREE];
        assert(degrees@ =~= seq![INNER_DEGREE]);
        Prover { params_dir: String::from_str(params_dir), degrees, phantom: PhantomData }
    }
}

/// The file that holds the artifact cached under `name` in `dir`.
pub open spec fn cache_path_of(dir: Seq<char>, name: Seq<char>) -> Seq<char> {
    dir + "/"@ + name + "_full_proof.json"@
}

/// `{dir}/{name}_full_proof.json`
pub fn cache_path(dir: &str, name: &str) -> (r: String)
    ensures
        r@ == cache_path_of(dir@, name@),
{
    let mut r = String::from_str(dir);
    r.append("/");
    r.append(name);
    r.append("_full_proof.json");
    r
}

/// What the driver of a session does next.
#[derive(Debug)]
pub enum Step {
    /// Read the file at this path and answer `CacheRead`.
    ReadCache(String),
    /// Fold the traces into a witness block and answer `Normalized`.
    Normalize,
    /// Draw fresh entropy, run the proving engine on the witness block for the circuit
    /// instance, and answer `Generated`.
    Generate,
    /// Encode the verifying key of the circuit instance, if the key store has one, and
    /// answer `KeyFetched`.
    FetchKey,
    /// Write these bytes at this path, replacing any earlier file only whole, and answer
    /// `Written`.
    Write(String, Vec<u8>),
    /// The call ends with this result.
    Finish(Result<Proof, ProverError>),
    /// The cache missed and there are no traces to prove: the caller broke the
    /// precondition, and the call must abort.
    EmptyTraces,
}

/// What the driver reports back after a step.
#[derive(Debug)]
pub enum Event {
    /// The cache file's bytes, or `None` where it is missing or unreadable.
    CacheRead(Option<Vec<u8>>),
    /// Whether the traces folded into a witness block.
    Normalized(Result<(), String>),
    /// The engine's payload, or why it failed.
    Generated(Result<Vec<u8>, String>),
    /// The encoded verifying key, or `None` where the circuit instance is unknown.
    KeyFetched(Option<Vec<u8>>),
    /// Whether the artifact was written.
    Written(Result<(), String>),
}

/// Where a session stands.
#[derive(Debug)]
pub enum Phase {
    Lookup,
    Normalize,
    Generate,
    FetchKey(Vec<u8>),
    Write(Proof),
    Done,
}

/// One call of cache-or-generate.
#[derive(Debug)]
pub struct Session {
    pub name: String,
    pub dir: Option<String>,
    pub traces: usize,
    pub phase: Phase,
}

/// Whether `e` answers the step that a session in `phase` asked for.
pub open spec fn answers(phase: Phase, e: Event) -> bool {
    match phase {
        Phase::Lookup => e is CacheRead,
        Phase::Normalize => e is Normalized,
        Phase::Generate => e is Generated,
        Phase::FetchKey(_) => e is KeyFetched,
        Phase::Write(_) => e is Written,
        Phase::Done => false,
    }
}

/// What a miss leads to: abort without traces, else fold them.
pub open spec fn on_miss(traces: usize, r: Step, phase: Phase) -> bool {
    if traces == 0 {
        r is EmptyTraces && phase is Done
    } else {
        r is Normalize && phase is Normalize
    }
}

impl Session {
    /// Starts a call for `name` with `traces` traces: with a directory, the cache is read
    /// first; without one, the call goes straight to generation and never touches files.
    pub fn start(name: &str, dir: Option<&str>, traces: usize) -> (r: (Session, Step))
        ensures
            r.0.name@ == name@,
            r.0.traces == traces,
            r.0.dir is Some == dir is Some,
            dir is Some ==> r.0.dir->0@ == dir->0@,
            match dir {
                Some(d) => r.0.phase is Lookup && (r.1 matches Step::ReadCache(p) && p@
                    == cache_path_of(d@, name@)),
                None => on_miss(traces, r.1, r.0.phase),
            },
    {
        let (d, step, phase) = match dir {
            Some(d) => (Some(String::from_str(d)), Step::ReadCache(cache_path(d, name)), Phase::Lookup),
            None => {
                if traces == 0 {
                    (None, Step::EmptyTraces, Phase::Done)
                } else {
                    (None, Step::Normalize, Phase::Normalize)
                }
            },
        };
        (Session { name: String::from_str(name), dir: d, traces, phase }, step)
    }

    /// Whether `e` answers the step this session asked for last.
    pub fn expects(&self, e: &Event) -> (r: bool)
        ensures
            r == answers(self.phase, *e),
    {
        match (&self.phase, e) {
            (Phase::Lookup, Event::CacheRead(_)) => true,
            (Phase::Normalize, Event::Normalized(_)) => true,
            (Phase::Generate, Event::Generated(_)) => true,
            (Phase::FetchKey(_), Event::KeyFetched(_)) => true,
            (Phase::Write(_), Event::Written(_)) => true,
            _ => false,
        }
    }

    /// Takes the answer to the last step and says what to do next.
    ///
    /// A well-formed cached artifact ends the call at once, whatever the traces; a
    /// missing or malformed one is a miss. Each failure ends the call with its error,
    /// and a fresh artifact is returned only after it was written, where there is a
    /// directory.
    pub fn handle(&mut self, e: Event) -> (r: Step)
        requires
            answers(old(self).phase, e),
        ensures
            final(self).name == old(self).name,
            final(self).dir == old(self).dir,
            final(self).traces == old(self).traces,
            final(self).phase is Done <==> (r is Finish || r is EmptyTraces),
            match e {
                Event::CacheRead(read) => match read {
                    Some(b) if decode(b@) is Some => final(self).phase is Done && (r matches Step::Finish(
                        Ok(p),
                    ) && p@ == decode(b@)->0),
                    _ => on_miss(old(self).traces, r, final(self).phase),
                },
                Event::Normalized(Err(m)) => r matches Step::Finish(Err(ProverError::Normalization(
                    m2,
                ))) && m2 == m,
                Event::Normalized(Ok(())) => r is Generate && final(self).phase is Generate,
                Event::Generated(Err(m)) => r matches Step::Finish(Err(ProverError::Proving(m2)))
                    && m2 == m,
                Event::Generated(Ok(s)) => r is FetchKey && (final(self).phase matches Phase::FetchKey(
                    s2,
                ) && s2@ == s@),
                Event::KeyFetched(None) => r matches Step::Finish(Err(e2)) && e2 is UnknownCircuitInstance,
                Event::KeyFetched(Some(vk)) => {
                    let snark = old(self).phase->FetchKey_0@;
                    if snark.len() == 0 || vk@.len() == 0 {
                        r matches Step::Finish(Err(e2)) && e2 is Assembly
                    } else {
                        match old(self).dir {
                            Some(d) => r matches Step::Write(path, bytes) && path@ == cache_path_of(
                                d@,
                                old(self).name@,
                            ) && bytes@ == encode((snark, vk@)) && decode(bytes@) == Some(
                                (snark, vk@),
                            ) && (final(self).phase matches Phase::Write(p) && p@ == (snark, vk@)),
                            None => r matches Step::Finish(Ok(p)) && p@ == (snark, vk@),
                        }
                    }
                },
                Event::Written(Err(m)) => r matches Step::Finish(Err(ProverError::Io(m2))) && m2 == m,
                Event::Written(Ok(())) => r matches Step::Finish(Ok(p)) && p@ == old(
                    self,
                ).phase->Write_0@,
            },
    {
        let mut phase = Phase::Done;
        std::mem::swap(&mut self.phase, &mut phase);
        match e {
            Event::CacheRead(read) => {
                if let Some(b) = read {
                    if let Ok(p) = Proof::from_json(b.as_slice()) {
                        return Step::Finish(Ok(p));
                    }
                }
                if self.traces == 0 {
                    Step::EmptyTraces
                } else {
                    self.phase = Phase::Normalize;
                    Step::Normalize
                }
            },
            Event::Normalized(Err(m)) => Step::Finish(Err(ProverError::Normalization(m))),
            Event::Normalized(Ok(())) => {
                self.phase = Phase::Generate;
                Step::Generate
            },
            Event::Generated(Err(m)) => Step::Finish(Err(ProverError::Proving(m))),
            Event::Generated(Ok(s)) => {
                self.phase = Phase::FetchKey(s);
                Step::FetchKey
            },
            Event::KeyFetched(None) => Step::Finish(Err(ProverError::UnknownCircuitInstance)),
            Event::KeyFetched(Some(vk)) => {
                let snark = match phase {
                    Phase::FetchKey(s) => s,
                    _ => vstd::pervasive::unreached(),
                };
                match Proof::from_snark(snark, vk) {
                    Err(err) => Step::Finish(Err(err)),
                    Ok(p) => match &self.dir {
                        Some(d) => {
                            let path = cache_path(d.as_str(), self.name.as_str());
                            let bytes = p.to_json();
                            proof {
                                lemma_round_trip(p@);
                            }
                            self.phase = Phase::Write(p);
                            Step::Write(path, bytes)
                        },
                        None => Step::Finish(Ok(p)),
                    },
                }
            },
            Event::Written(Err(m)) => Step::Finish(Err(ProverError::Io(m))),
            Event::Written(Ok(())) => match phase {
                Phase::Write(p) => Step::Finish(Ok(p)),
                _ => vstd::pervasive::unreached(),
            },
        }
    }
}

} // verus!
