use vstd::prelude::*;
use crate::bigint::{Bigint, le_val, bi_min_bytes, bi_next_prime, min_bytes, next_prime_of};
use crate::group::UnknownOrderGroup;

verus! {

#[verifier::external_type_specification]
#[verifier::external_body]
pub struct ExTranscript(merlin::Transcript);

/// What the outside transcript answers to a challenge request, as a
/// function of everything absorbed so far: the keyed sponge is
/// deterministic, so equal logs give equal challenges.
pub uninterp spec fn challenge_of(log: Seq<Seq<u8>>, nbytes: nat) -> Seq<u8>;

/// The log entry for an absorbed message.
pub open spec fn msg_entry(data: Seq<u8>) -> Seq<u8> {
    seq![0u8] + data
}

/// The log entry for a drawn challenge, which also moves the sponge state.
pub open spec fn chal_entry(nbytes: nat) -> Seq<u8> {
    seq![1u8, (nbytes % 256) as u8]
}

/// A Fiat-Shamir transcript: the outside sponge, together with the log of
/// everything absorbed, which determines every challenge drawn from it.
/// Both fields are private, so the log can change only through the
/// operations below, which keep it coupled to the sponge.
pub struct FsTranscript {
    inner: merlin::Transcript,
    log: Ghost<Seq<Seq<u8>>>,
}

impl FsTranscript {
    /// The log of everything absorbed so far.
    pub closed spec fn log_view(&self) -> Seq<Seq<u8>> {
        self.log@
    }
}

/// Relies on merlin::Transcript::new: a fresh sponge under a fixed
/// protocol label, so its state is the one that an empty log denotes.
#[verifier::external_body]
fn raw_transcript() -> merlin::Transcript {
    merlin::Transcript::new(b"extend-sig")
}

/// A fresh transcript with an empty log.
pub fn ts_new() -> (r: FsTranscript)
    ensures
        r.log_view() == Seq::<Seq<u8>>::empty(),
{
    FsTranscript { inner: raw_transcript(), log: Ghost(Seq::empty()) }
}

/// Relies on merlin::Transcript::append_message under a fixed label: the
/// bytes are absorbed into the sponge.
#[verifier::external_body]
pub fn ts_append(t: &mut FsTranscript, data: &Vec<u8>)
    ensures
        final(t).log_view() == old(t).log_view().push(msg_entry(data@)),
{
    t.inner.append_message(b"m", data.as_slice());
}

/// Relies on merlin::Transcript::challenge_bytes under a fixed label: the
/// bytes drawn depend only on what was absorbed before, and drawing also
/// advances the sponge.
#[verifier::external_body]
pub fn ts_challenge(t: &mut FsTranscript, nbytes: usize) -> (r: Vec<u8>)
    requires
        nbytes < 256,
    ensures
        r@ == challenge_of(old(t).log_view(), nbytes as nat),
        r@.len() == nbytes,
        final(t).log_view() == old(t).log_view().push(chal_entry(nbytes as nat)),
{
    let mut buf = vec![0u8; nbytes];
    t.inner.challenge_bytes(b"c", &mut buf);
    buf
}

impl FsTranscript {
    /// Starts a transcript with a protocol domain separator already
    /// absorbed.
    pub fn new_with_domain(domain: &Vec<u8>) -> (r: FsTranscript)
        ensures
            r.log_view() == seq![msg_entry(domain@)],
    {
        let mut t = ts_new();
        ts_append(&mut t, domain);
        proof {
            assert(t.log_view() =~= seq![msg_entry(domain@)]);
        }
        t
    }

    /// Absorbs a non-negative integer by its canonical byte encoding.
    pub fn append_int(&mut self, x: &Bigint)
        requires
            x@ >= 0,
        ensures
            final(self).log_view() == old(self).log_view().push(msg_entry(min_bytes(x@))),
    {
        let data = bi_min_bytes(x);
        ts_append(self, &data);
    }

    /// Absorbs a group element by its canonical byte encoding.
    pub fn append_elem<G: UnknownOrderGroup>(&mut self, e: &G)
        requires
            e.wf(),
        ensures
            final(self).log_view() == old(self).log_view().push(msg_entry(G::senc(e.gv()))),
    {
        let data = e.to_bytes();
        ts_append(self, &data);
    }

    /// Absorbs arbitrary bytes.
    pub fn append_bytes(&mut self, data: &Vec<u8>)
        ensures
            final(self).log_view() == old(self).log_view().push(msg_entry(data@)),
    {
        ts_append(self, data);
    }

    /// Draws a challenge and reads it as a non-negative integer.
    pub fn challenge_int(&mut self, nbytes: usize) -> (r: Bigint)
        requires
            nbytes < 256,
        ensures
            r@ == le_val(challenge_of(old(self).log_view(), nbytes as nat)),
            r@ >= 0,
            r.wf(),
            final(self).log_view() == old(self).log_view().push(chal_entry(nbytes as nat)),
    {
        let bytes = ts_challenge(self, nbytes);
        Bigint::from_bytes_le(bytes)
    }

    /// Draws a challenge and moves to the first prime the deterministic
    /// search accepts above it.
    pub fn challenge_prime(&mut self, nbytes: usize) -> (r: Bigint)
        requires
            nbytes < 256,
        ensures
            r@ == next_prime_of(le_val(challenge_of(old(self).log_view(), nbytes as nat))),
            r@ >= 2,
            r.wf(),
            final(self).log_view() == old(self).log_view().push(chal_entry(nbytes as nat)),
    {
        let c = self.challenge_int(nbytes);
        bi_next_prime(&c)
    }
}

} // verus!
