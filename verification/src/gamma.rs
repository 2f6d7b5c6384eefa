//! Per-output gamma state (the wlr-gamma-control protocol): the lookup table
//! size, the table last set by a client, and which control object is the
//! output's current one.
//!
//! Control objects are named by numbers the caller assigns; the caller also
//! says which of them are still alive when it asks.
use vstd::prelude::*;

verus! {

/// Entries per channel advertised for every output.
pub const DEFAULT_GAMMA_LUT_SIZE: u32 = 256;

/// Bytes a client sends for a table of `size` entries per channel: three
/// channels of `size` 16-bit entries; `None` when that does not fit in
/// `usize`.
pub open spec fn lut_byte_count(size: u32) -> Option<usize> {
    if size * 6 <= usize::MAX {
        Some((size * 6) as usize)
    } else {
        None
    }
}

/// Bytes a client sends for a table of `size` entries per channel.
pub fn gamma_lut_bytes(size: u32) -> (r: Option<usize>)
    ensures
        r == lut_byte_count(size),
{
    let n = size as usize;
    match n.checked_mul(3) {
        Some(m) => m.checked_mul(2),
        None => None,
    }
}

/// The table a byte stream holds: consecutive little-endian 16-bit entries
/// (red ramp, then green, then blue); a trailing odd byte is ignored.
/// Little-endian is the native byte order of every platform the compositor
/// ships on, which is what clients write.
pub open spec fn decoded_lut(bytes: Seq<u8>) -> Seq<u16> {
    Seq::new(bytes.len() / 2, |i: int| (bytes[2 * i] + 256 * bytes[2 * i + 1]) as u16)
}

/// Decodes a gamma table from the bytes a client sent.
pub fn decode_gamma_lut(bytes: &Vec<u8>) -> (lut: Vec<u16>)
    ensures
        lut@ == decoded_lut(bytes@),
{
    let len = bytes.len();
    let n = len / 2;
    let mut lut: Vec<u16> = Vec::new();
    let mut i: usize = 0;
    while i < n
        invariant
            len == bytes@.len(),
            n == len / 2,
            i <= n,
            lut@.len() == i,
            forall|k: int| 0 <= k < i ==> lut@[k] == decoded_lut(bytes@)[k],
        decreases n - i,
    {
        let lo = bytes[2 * i] as u16;
        let hi = bytes[2 * i + 1] as u16;
        lut.push(lo + 256 * hi);
        i = i + 1;
    }
    assert(lut@ =~= decoded_lut(bytes@));
    lut
}

/// The controls of `cs` that `keep` holds for, in order.
pub open spec fn kept(cs: Seq<u32>, keep: spec_fn(u32) -> bool) -> Seq<u32>
    decreases cs.len(),
{
    if cs.len() == 0 {
        Seq::empty()
    } else {
        let prev = kept(cs.drop_last(), keep);
        if keep(cs.last()) {
            prev.push(cs.last())
        } else {
            prev
        }
    }
}

/// Controls still alive (per `alive`) other than `id`.
pub open spec fn alive_except(alive: Seq<u32>, id: u32) -> spec_fn(u32) -> bool {
    |c: u32| alive.contains(c) && c != id
}

/// Controls still alive (per `alive`) that are `id`.
pub open spec fn alive_as(alive: Seq<u32>, id: u32) -> spec_fn(u32) -> bool {
    |c: u32| alive.contains(c) && c == id
}

/// Controls still alive (per `alive`).
pub open spec fn alive_in(alive: Seq<u32>) -> spec_fn(u32) -> bool {
    |c: u32| alive.contains(c)
}

/// Whether `v` holds `x`.
fn holds(v: &Vec<u32>, x: u32) -> (r: bool)
    ensures
        r == v@.contains(x),
{
    let mut i: usize = 0;
    while i < v.len()
        invariant
            i <= v@.len(),
            forall|j: int| 0 <= j < i ==> v@[j] != x,
        decreases v@.len() - i,
    {
        if v[i] == x {
            return true;
        }
        i = i + 1;
    }
    false
}

/// The gamma state of one output.
#[derive(Debug)]
pub struct OutputGammaState {
    /// Entries per channel advertised to clients.
    pub size: u32,
    /// The table last set, red entries first; `None` when none is set.
    pub current_lut: Option<Vec<u16>>,
    /// Every control object created for the output and not yet pruned.
    pub controls: Vec<u32>,
}

/// Splits `cs` into the controls for which `fail` holds and those for
/// which `stay` holds (in order).
fn partition(cs: &Vec<u32>, alive: &Vec<u32>, id: u32, drop_id: bool) -> (r: (Vec<u32>, Vec<u32>))
    ensures
        r.0@ == kept(cs@, alive_except(alive@, id)),
        drop_id ==> r.1@ == Seq::<u32>::empty(),
        !drop_id ==> r.1@ == kept(cs@, alive_as(alive@, id)),
{
    let mut fail: Vec<u32> = Vec::new();
    let mut stay: Vec<u32> = Vec::new();
    let mut i: usize = 0;
    while i < cs.len()
        invariant
            i <= cs@.len(),
            fail@ == kept(cs@.take(i as int), alive_except(alive@, id)),
            drop_id ==> stay@ == Seq::<u32>::empty(),
            !drop_id ==> stay@ == kept(cs@.take(i as int), alive_as(alive@, id)),
        decreases cs@.len() - i,
    {
        let c = cs[i];
        proof {
            assert(cs@.take(i + 1).drop_last() =~= cs@.take(i as int));
            assert(cs@.take(i + 1).last() == c);
        }
        if holds(alive, c) {
            if c != id {
                fail.push(c);
            } else if !drop_id {
                stay.push(c);
            }
        }
        i = i + 1;
    }
    proof {
        assert(cs@.take(cs@.len() as int) =~= cs@);
    }
    (fail, stay)
}

impl OutputGammaState {
    /// State for an output advertising `size` entries per channel, with no
    /// table and no control.
    pub fn new(size: u32) -> (s: Self)
        ensures
            s.size == size,
            s.current_lut is None,
            s.controls@.len() == 0,
    {
        OutputGammaState { size, current_lut: None, controls: Vec::new() }
    }

    /// Makes control `new_id` the output's current one. Returns the earlier
    /// controls still alive (they are told they failed, as only one control
    /// per output may exist) and the table size to advertise; controls no
    /// longer alive are pruned.
    pub fn register_control(&mut self, new_id: u32, alive: &Vec<u32>) -> (r: (Vec<u32>, u32))
        ensures
            r.0@ == kept(old(self).controls@, alive_except(alive@, new_id)),
            r.1 == old(self).size,
            final(self).controls@ == kept(old(self).controls@, alive_as(alive@, new_id)).push(new_id),
            final(self).size == old(self).size,
            final(self).current_lut == old(self).current_lut,
    {
        let (fail, mut stay) = partition(&self.controls, alive, new_id, false);
        stay.push(new_id);
        self.controls = stay;
        (fail, self.size)
    }

    /// Stores the table decoded from `bytes`.
    pub fn set_lut(&mut self, bytes: &Vec<u8>)
        ensures
            final(self).current_lut matches Some(l) && l@ == decoded_lut(bytes@),
            final(self).size == old(self).size,
            final(self).controls@ == old(self).controls@,
    {
        self.current_lut = Some(decode_gamma_lut(bytes));
    }

    /// Control `id` went away: it and the controls no longer alive are
    /// pruned. A graceful destroy (`graceful`) also drops the table, so the
    /// output returns to its original gamma; an abrupt one keeps it.
    pub fn forget_control(&mut self, id: u32, alive: &Vec<u32>, graceful: bool)
        ensures
            final(self).controls@ == kept(old(self).controls@, alive_except(alive@, id)),
            graceful ==> final(self).current_lut is None,
            !graceful ==> final(self).current_lut == old(self).current_lut,
            final(self).size == old(self).size,
    {
        let (rest, _none) = partition(&self.controls, alive, id, true);
        self.controls = rest;
        if graceful {
            self.current_lut = None;
        }
    }

    /// The output is going away: returns the controls still alive (they are
    /// told they failed), forgets every control and drops the table.
    pub fn output_destroyed(&mut self, alive: &Vec<u32>) -> (failed: Vec<u32>)
        ensures
            failed@ == kept(old(self).controls@, alive_in(alive@)),
            final(self).controls@.len() == 0,
            final(self).current_lut is None,
            final(self).size == old(self).size,
    {
        let mut failed: Vec<u32> = Vec::new();
        let mut i: usize = 0;
        while i < self.controls.len()
            invariant
                i <= self.controls@.len(),
                failed@ == kept(self.controls@.take(i as int), alive_in(alive@)),
            decreases self.controls@.len() - i,
        {
            let c = self.controls[i];
            proof {
                assert(self.controls@.take(i + 1).drop_last() =~= self.controls@.take(i as int));
            }
            if holds(alive, c) {
                failed.push(c);
            }
            i = i + 1;
        }
        proof {
            assert(self.controls@.take(self.controls@.len() as int) =~= self.controls@);
        }
        self.controls = Vec::new();
        self.current_lut = None;
        failed
    }
}

/// Every control `kept` keeps satisfies the predicate.
pub proof fn lemma_kept_satisfies(cs: Seq<u32>, keep: spec_fn(u32) -> bool)
    ensures
        forall|i: int| 0 <= i < kept(cs, keep).len() ==> keep(#[trigger] kept(cs, keep)[i]),
    decreases cs.len(),
{
    if cs.len() > 0 {
        let prev = kept(cs.drop_last(), keep);
        lemma_kept_satisfies(cs.drop_last(), keep);
        assert forall|i: int| 0 <= i < kept(cs, keep).len() implies keep(#[trigger] kept(cs, keep)[i]) by {
            if i < prev.len() {
                assert(kept(cs, keep)[i] == prev[i]);
            }
        }
    }
}

/// After a control registers, it is the only control the output keeps:
/// every earlier one was either reported failed or pruned.
pub proof fn law_one_control_per_output(controls: Seq<u32>, alive: Seq<u32>, new_id: u32)
    ensures
        forall|i: int|
            0 <= i < kept(controls, alive_as(alive, new_id)).push(new_id).len() ==> #[trigger] kept(
                controls,
                alive_as(alive, new_id),
            ).push(new_id)[i] == new_id,
{
    lemma_kept_satisfies(controls, alive_as(alive, new_id));
}

/// The table last set on an output, red entries first; `None` when none
/// is set.
pub fn current_gamma_lut_for_output(state: &OutputGammaState) -> (lut: Option<Vec<u16>>)
    ensures
        match (lut, state.current_lut) {
            (Some(l), Some(c)) => l@ == c@,
            (None, None) => true,
            _ => false,
        },
{
    match &state.current_lut {
        Some(l) => {
            let mut copy: Vec<u16> = Vec::new();
            let mut i: usize = 0;
            while i < l.len()
                invariant
                    i <= l@.len(),
                    copy@ == l@.take(i as int),
                decreases l@.len() - i,
            {
                copy.push(l[i]);
                i = i + 1;
                assert(copy@ =~= l@.take(i as int));
            }
            assert(l@.take(l@.len() as int) =~= l@);
            Some(copy)
        },
        None => None,
    }
}

/// The table size advertised for an output (entries per channel).
pub fn gamma_lut_size_for_output(state: &OutputGammaState) -> (n: u32)
    ensures
        n == state.size,
{
    state.size
}

/// The bytes a client writes for a table: each entry little-endian.
pub open spec fn encoded_lut(lut: Seq<u16>) -> Seq<u8> {
    Seq::new(2 * lut.len(), |i: int| if i % 2 == 0 { (lut[i / 2] % 256) as u8 } else { (lut[i / 2] / 256) as u8 })
}

/// Decoding gives back the table a client encoded.
pub proof fn law_decode_inverts_encode(lut: Seq<u16>)
    ensures
        decoded_lut(encoded_lut(lut)) == lut,
{
    let b = encoded_lut(lut);
    assert(b.len() / 2 == lut.len());
    assert forall|i: int| 0 <= i < lut.len() implies #[trigger] decoded_lut(b)[i] == lut[i] by {
        assert((2 * i) % 2 == 0 && (2 * i) / 2 == i);
        assert((2 * i + 1) % 2 == 1 && (2 * i + 1) / 2 == i);
        assert(b[2 * i] == lut[i] % 256);
        assert(b[2 * i + 1] == lut[i] / 256);
        assert((lut[i] % 256) + 256 * (lut[i] / 256) == lut[i]);
    }
    assert(decoded_lut(b) =~= lut);
}

} // verus!
