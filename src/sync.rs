//! The party synchronization record and the rollback decision.
//!
//! A record has one size whatever it holds, so that the records of all
//! parties can be gathered back to back and split again without framing:
//!
//! - bytes `[0, 8)`: the database length, little-endian;
//! - bytes `[8, 16)`: the number of deleted-request identifiers;
//! - then `MAX_REQUESTS` slots of `SLOT_SIZE` bytes: the identifier's byte
//!   length (eight bytes, little-endian), its UTF-8 bytes, and zeros up to
//!   `MAX_REQUEST_ID_LEN` bytes. Slots past the count hold length zero.

use crate::bytes::{
    concat_groups, copy_range, le64, lemma_concat_groups_index, lemma_concat_groups_len,
    lemma_u64_at_subrange, lemma_u64_round_trip, push_bytes, push_u64, push_zeros, read_u64,
    u64_at, zeros,
};
use vstd::prelude::*;
use vstd::utf8::*;

verus! {

/// The largest number of deleted-request identifiers a record can carry.
pub const MAX_REQUESTS: usize = 256 * 2;

/// The largest byte length of one identifier (a UUID in text form).
pub const MAX_REQUEST_ID_LEN: usize = 36;

/// Bytes taken by one identifier slot: its length, then `MAX_REQUEST_ID_LEN` bytes.
pub const SLOT_SIZE: usize = 44;

/// Bytes taken by the record header: the database length and the count.
pub const HEADER_SIZE: usize = 16;

/// The fixed size of an encoded record: `MAX_REQUESTS * SLOT_SIZE + HEADER_SIZE`.
pub const SERIAL_SIZE: usize = 22544;

/// What one party reports at a synchronization round.
#[derive(Debug, PartialEq, Eq)]
pub struct SyncState {
    pub db_len: usize,
    pub deleted_request_ids: Vec<String>,
}

/// The outcome of a synchronization round, as seen by one party.
#[derive(Debug, PartialEq, Eq)]
pub struct SyncResult {
    pub my_state: SyncState,
    pub all_states: Vec<SyncState>,
}

/// Why a record could not be encoded or decoded.
#[derive(Debug, PartialEq, Eq, Clone, Copy, Structural)]
pub enum SyncError {
    /// More identifiers than `MAX_REQUESTS`.
    TooManyIds,
    /// An identifier longer than `MAX_REQUEST_ID_LEN` bytes.
    IdTooLong,
    /// A buffer that is not a sequence of well-formed records.
    Malformed,
}

/// The UTF-8 bytes of an identifier.
pub open spec fn id_bytes(s: String) -> Seq<u8> {
    encode_utf8(s@)
}

/// The identifiers of a state, as character sequences.
pub open spec fn ids_view(st: SyncState) -> Seq<Seq<char>> {
    st.deleted_request_ids@.map_values(|s: String| s@)
}

/// Whether the record layout can hold `st`.
pub open spec fn fits(st: SyncState) -> bool {
    &&& st.deleted_request_ids@.len() <= MAX_REQUESTS
    &&& forall|i: int|
        0 <= i < st.deleted_request_ids@.len() ==> id_bytes(
            #[trigger] st.deleted_request_ids@[i],
        ).len() <= MAX_REQUEST_ID_LEN
}

/// One identifier slot.
pub open spec fn slot(id: Seq<u8>) -> Seq<u8> {
    le64(id.len() as u64) + id + zeros((MAX_REQUEST_ID_LEN - id.len()) as nat)
}

/// The `k`-th slot of the record of `st`.
pub open spec fn slot_of(st: SyncState, k: int) -> Seq<u8> {
    if k < st.deleted_request_ids@.len() {
        slot(id_bytes(st.deleted_request_ids@[k]))
    } else {
        slot(Seq::empty())
    }
}

/// The record of `st`.
pub open spec fn state_encoding(st: SyncState) -> Seq<u8> {
    le64(st.db_len as u64) + le64(st.deleted_request_ids@.len() as u64) + concat_groups(
        Seq::new(MAX_REQUESTS as nat, |k: int| slot_of(st, k)),
    )
}

/// Where the `k`-th slot of a record starts.
pub open spec fn slot_start(k: int) -> int {
    HEADER_SIZE + SLOT_SIZE * k
}

/// The identifier count stored in record `r`.
pub open spec fn count_in(r: Seq<u8>) -> u64 {
    u64_at(r, 8)
}

/// The identifier length stored in the `k`-th slot of record `r`.
pub open spec fn slot_len_in(r: Seq<u8>, k: int) -> u64 {
    u64_at(r, slot_start(k))
}

/// The identifier bytes stored in the `k`-th slot of record `r`.
pub open spec fn slot_id_in(r: Seq<u8>, k: int) -> Seq<u8> {
    r.subrange(slot_start(k) + 8, slot_start(k) + 8 + slot_len_in(r, k))
}

/// Whether `r` is a record that decodes.
pub open spec fn decodable(r: Seq<u8>) -> bool {
    &&& r.len() == SERIAL_SIZE
    &&& u64_at(r, 0) <= usize::MAX
    &&& count_in(r) <= MAX_REQUESTS
    &&& forall|k: int|
        0 <= k < count_in(r) ==> #[trigger] slot_len_in(r, k) <= MAX_REQUEST_ID_LEN
            && valid_utf8(slot_id_in(r, k))
}

/// `st` is what record `r` holds.
pub open spec fn decodes_to(r: Seq<u8>, st: SyncState) -> bool {
    &&& st.db_len == u64_at(r, 0)
    &&& st.deleted_request_ids@.len() == count_in(r)
    &&& forall|k: int|
        0 <= k < count_in(r) ==> id_bytes(#[trigger] st.deleted_request_ids@[k]) == slot_id_in(
            r,
            k,
        )
}

/// The `i`-th record of a gathered buffer.
pub open spec fn record(b: Seq<u8>, i: int) -> Seq<u8> {
    b.subrange(SERIAL_SIZE * i, SERIAL_SIZE * i + SERIAL_SIZE)
}

/// Relies on `String::from_utf8`: it accepts exactly the valid UTF-8 byte
/// strings, and the string it returns has those bytes.
#[verifier::external_body]
fn string_from_utf8(b: Vec<u8>) -> (r: Option<String>)
    ensures
        r is Some <==> valid_utf8(b@),
        r matches Some(s) ==> encode_utf8(s@) == b@,
{
    String::from_utf8(b).ok()
}

/// Encodes a state into its fixed-size record.
pub fn serialize(state: &SyncState) -> (r: Result<Vec<u8>, SyncError>)
    ensures
        r is Ok <==> fits(*state),
        r matches Ok(b) ==> b@ == state_encoding(*state) && b@.len() == SERIAL_SIZE,
        r == Err::<Vec<u8>, SyncError>(SyncError::TooManyIds) <==> state.deleted_request_ids@.len()
            > MAX_REQUESTS,
{
    let ids = &state.deleted_request_ids;
    let n = ids.len();
    if n > MAX_REQUESTS {
        return Err(SyncError::TooManyIds);
    }
    let mut out: Vec<u8> = Vec::new();
    push_u64(&mut out, state.db_len as u64);
    push_u64(&mut out, n as u64);
    let ghost slots = Seq::new(MAX_REQUESTS as nat, |k: int| slot_of(*state, k));
    let ghost header = le64(state.db_len as u64) + le64(n as u64);
    let mut k: usize = 0;
    while k < MAX_REQUESTS
        invariant
            k <= MAX_REQUESTS,
            n == ids@.len(),
            n <= MAX_REQUESTS,
            ids == &state.deleted_request_ids,
            slots == Seq::new(MAX_REQUESTS as nat, |k: int| slot_of(*state, k)),
            header == le64(state.db_len as u64) + le64(n as u64),
            out@ == header + concat_groups(slots.subrange(0, k as int)),
            forall|i: int| 0 <= i < k && i < n ==> id_bytes(#[trigger] ids@[i]).len() <= MAX_REQUEST_ID_LEN,
        decreases MAX_REQUESTS - k,
    {
        let ghost before = out@;
        if k < n {
            let bytes = ids[k].as_str().as_bytes();
            let len = bytes.len();
            if len > MAX_REQUEST_ID_LEN {
                return Err(SyncError::IdTooLong);
            }
            push_u64(&mut out, len as u64);
            push_bytes(&mut out, bytes);
            push_zeros(&mut out, MAX_REQUEST_ID_LEN - len);
            assert(out@ =~= before + slot(id_bytes(ids@[k as int])));
        } else {
            push_u64(&mut out, 0);
            push_zeros(&mut out, MAX_REQUEST_ID_LEN);
            assert(out@ =~= before + slot(Seq::empty()));
        }
        assert(slots.subrange(0, k + 1).drop_last() =~= slots.subrange(0, k as int));
        k = k + 1;
    }
    assert(slots.subrange(0, MAX_REQUESTS as int) =~= slots);
    proof {
        assert forall|i: int| 0 <= i < slots.len() implies (#[trigger] slots[i]).len() == SLOT_SIZE by {
            if i < n {
                assert(id_bytes(ids@[i]).len() <= MAX_REQUEST_ID_LEN);
            }
        }
        lemma_concat_groups_len(slots, SLOT_SIZE as int);
    }
    Ok(out)
}

/// Decodes the record that starts at `start` in `b`.
fn deserialize_at(b: &[u8], start: usize) -> (r: Result<SyncState, SyncError>)
    requires
        start + SERIAL_SIZE <= b@.len(),
    ensures
        r is Ok <==> decodable(b@.subrange(start as int, start + SERIAL_SIZE)),
        r matches Ok(st) ==> decodes_to(b@.subrange(start as int, start + SERIAL_SIZE), st),
        r is Err ==> r == Err::<SyncState, SyncError>(SyncError::Malformed),
{
    let ghost rec = b@.subrange(start as int, start + SERIAL_SIZE);
    let blen = b.len();
    proof {
        lemma_u64_at_subrange(b@, start as int, start + SERIAL_SIZE, 0);
        lemma_u64_at_subrange(b@, start as int, start + SERIAL_SIZE, 8);
    }
    let db_len = read_u64(b, start);
    if db_len > usize::MAX as u64 {
        return Err(SyncError::Malformed);
    }
    let count = read_u64(b, start + 8);
    if count > MAX_REQUESTS as u64 {
        return Err(SyncError::Malformed);
    }
    let count = count as usize;
    let mut ids: Vec<String> = Vec::new();
    let mut k: usize = 0;
    while k < count
        invariant
            k <= count,
            start + SERIAL_SIZE <= usize::MAX,
            count == count_in(rec),
            count <= MAX_REQUESTS,
            start + SERIAL_SIZE <= b@.len(),
            rec == b@.subrange(start as int, start + SERIAL_SIZE),
            ids@.len() == k,
            forall|i: int|
                0 <= i < k ==> #[trigger] slot_len_in(rec, i) <= MAX_REQUEST_ID_LEN && valid_utf8(
                    slot_id_in(rec, i),
                ),
            forall|i: int| 0 <= i < k ==> id_bytes(#[trigger] ids@[i]) == slot_id_in(rec, i),
        decreases count - k,
    {
        let pos = start + HEADER_SIZE + SLOT_SIZE * k;
        proof {
            lemma_u64_at_subrange(b@, start as int, start + SERIAL_SIZE, slot_start(k as int));
        }
        let len = read_u64(b, pos);
        if len > MAX_REQUEST_ID_LEN as u64 {
            assert(slot_len_in(rec, k as int) > MAX_REQUEST_ID_LEN);
            return Err(SyncError::Malformed);
        }
        let bytes = copy_range(b, pos + 8, len as usize);
        assert(bytes@ =~= slot_id_in(rec, k as int));
        match string_from_utf8(bytes) {
            Some(s) => {
                ids.push(s);
            },
            None => {
                assert(slot_len_in(rec, k as int) <= MAX_REQUEST_ID_LEN);
                return Err(SyncError::Malformed);
            },
        }
        k = k + 1;
    }
    Ok(SyncState { db_len: db_len as usize, deleted_request_ids: ids })
}

/// Decodes one record.
pub fn deserialize(state_ser: &[u8]) -> (r: Result<SyncState, SyncError>)
    ensures
        r is Ok <==> decodable(state_ser@),
        r matches Ok(st) ==> decodes_to(state_ser@, st),
        r is Err ==> r == Err::<SyncState, SyncError>(SyncError::Malformed),
{
    if state_ser.len() != SERIAL_SIZE {
        return Err(SyncError::Malformed);
    }
    assert(state_ser@.subrange(0, SERIAL_SIZE as int) =~= state_ser@);
    deserialize_at(state_ser, 0)
}

/// Decodes records gathered back to back, in order.
pub fn deserialize_all(state_ser: &[u8]) -> (r: Result<Vec<SyncState>, SyncError>)
    ensures
        r is Ok <==> state_ser@.len() % (SERIAL_SIZE as nat) == 0 && forall|i: int|
            0 <= i < state_ser@.len() / (SERIAL_SIZE as nat) ==> decodable(
                #[trigger] record(state_ser@, i),
            ),
        r matches Ok(v) ==> v@.len() == state_ser@.len() / (SERIAL_SIZE as nat) && forall|i: int|
            0 <= i < v@.len() ==> decodes_to(record(state_ser@, i), #[trigger] v@[i]),
        r is Err ==> r == Err::<Vec<SyncState>, SyncError>(SyncError::Malformed),
{
    let n = state_ser.len();
    if n % SERIAL_SIZE != 0 {
        return Err(SyncError::Malformed);
    }
    let count = n / SERIAL_SIZE;
    let mut out: Vec<SyncState> = Vec::new();
    let mut i: usize = 0;
    while i < count
        invariant
            i <= count,
            n == state_ser@.len(),
            count == n / SERIAL_SIZE,
            n % SERIAL_SIZE == 0,
            out@.len() == i,
            forall|j: int| 0 <= j < i ==> decodable(#[trigger] record(state_ser@, j)),
            forall|j: int| 0 <= j < i ==> decodes_to(record(state_ser@, j), #[trigger] out@[j]),
        decreases count - i,
    {
        assert(SERIAL_SIZE * i + SERIAL_SIZE <= n) by (nonlinear_arith)
            requires
                i < count,
                count == n / SERIAL_SIZE,
                SERIAL_SIZE > 0,
        ;
        let start = SERIAL_SIZE * i;
        match deserialize_at(state_ser, start) {
            Ok(st) => {
                out.push(st);
            },
            Err(e) => {
                assert(!decodable(record(state_ser@, i as int)));
                return Err(e);
            },
        }
        i = i + 1;
    }
    Ok(out)
}

/// A record read back gives the state that was written: its database
/// length and its identifiers, in order.
pub proof fn lemma_state_round_trip(st: SyncState, back: SyncState)
    requires
        fits(st),
        decodes_to(state_encoding(st), back),
    ensures
        decodable(state_encoding(st)),
        back.db_len == st.db_len,
        ids_view(back) == ids_view(st),
{
    lemma_state_encoding_fields(st);
    let r = state_encoding(st);
    let n = st.deleted_request_ids@.len();
    assert forall|k: int| 0 <= k < n implies ids_view(back)[k] == ids_view(st)[k] by {
        let a = back.deleted_request_ids@[k];
        let b = st.deleted_request_ids@[k];
        assert(id_bytes(a) == slot_id_in(r, k));
        encode_utf8_decode_utf8(a@);
        encode_utf8_decode_utf8(b@);
    }
    assert(ids_view(back) =~= ids_view(st));
}

/// What a reader of the record of `st` finds in it.
pub proof fn lemma_state_encoding_fields(st: SyncState)
    requires
        fits(st),
    ensures
        decodable(state_encoding(st)),
        u64_at(state_encoding(st), 0) == st.db_len,
        count_in(state_encoding(st)) == st.deleted_request_ids@.len(),
        forall|k: int|
            0 <= k < st.deleted_request_ids@.len() ==> slot_id_in(state_encoding(st), k) == id_bytes(
                #[trigger] st.deleted_request_ids@[k],
            ),
{
    let r = state_encoding(st);
    let n = st.deleted_request_ids@.len();
    let slots = Seq::new(MAX_REQUESTS as nat, |k: int| slot_of(st, k));
    let body = concat_groups(slots);
    let h0 = le64(st.db_len as u64);
    let h1 = le64(n as u64);
    assert forall|i: int| 0 <= i < slots.len() implies (#[trigger] slots[i]).len() == SLOT_SIZE by {
        if i < n {
            assert(id_bytes(st.deleted_request_ids@[i]).len() <= MAX_REQUEST_ID_LEN);
        }
    }
    lemma_concat_groups_len(slots, SLOT_SIZE as int);
    assert(r.subrange(0, 8) =~= h0);
    assert(r.subrange(8, 16) =~= h1);
    lemma_u64_round_trip(st.db_len as u64);
    lemma_u64_round_trip(n as u64);
    lemma_u64_at_subrange(r, 0, 8, 0);
    lemma_u64_at_subrange(r, 8, 16, 0);
    assert forall|k: int| 0 <= k < n implies #[trigger] slot_len_in(r, k) <= MAX_REQUEST_ID_LEN
        && valid_utf8(slot_id_in(r, k)) && slot_id_in(r, k) == id_bytes(st.deleted_request_ids@[k]) by {
        let id = id_bytes(st.deleted_request_ids@[k]);
        lemma_concat_groups_index(slots, SLOT_SIZE as int, k);
        let s0 = slot_start(k);
        assert(r.subrange(s0, s0 + SLOT_SIZE) =~= body.subrange(SLOT_SIZE * k, SLOT_SIZE * k + SLOT_SIZE));
        assert(slots[k] == slot(id));
        assert(r.subrange(s0, s0 + 8) =~= le64(id.len() as u64));
        lemma_u64_at_subrange(r, s0, s0 + 8, 0);
        lemma_u64_round_trip(id.len() as u64);
        assert(slot_len_in(r, k) == id.len());
        let w = r.subrange(s0, s0 + SLOT_SIZE);
        assert(w == slot(id));
        assert(slot(id).subrange(8, 8 + id.len() as int) =~= id);
        assert(slot_id_in(r, k) =~= w.subrange(8, 8 + id.len() as int));
        encode_utf8_valid_utf8(st.deleted_request_ids@[k]@);
    }
}

/// The lowest database length among the caller's own and all reported ones.
pub open spec fn min_len(own: usize, states: Seq<SyncState>) -> usize
    decreases states.len(),
{
    if states.len() == 0 {
        own
    } else {
        let m = min_len(own, states.drop_last());
        if states.last().db_len < m {
            states.last().db_len
        } else {
            m
        }
    }
}

/// Every reported database length equals the caller's own.
pub open spec fn all_agree(own: usize, states: Seq<SyncState>) -> bool {
    forall|i: int| 0 <= i < states.len() ==> (#[trigger] states[i]).db_len == own
}

/// No target when all lengths agree; else the lowest length reported.
pub open spec fn rollback_target(own: usize, states: Seq<SyncState>) -> Option<usize> {
    if all_agree(own, states) {
        None
    } else {
        Some(min_len(own, states))
    }
}

/// The lowest length is at most every length, and is one of them.
pub proof fn lemma_min_len(own: usize, states: Seq<SyncState>)
    ensures
        min_len(own, states) <= own,
        forall|i: int| 0 <= i < states.len() ==> min_len(own, states) <= (#[trigger] states[i]).db_len,
        min_len(own, states) == own || exists|i: int|
            0 <= i < states.len() && (#[trigger] states[i]).db_len == min_len(own, states),
    decreases states.len(),
{
    if states.len() > 0 {
        let init = states.drop_last();
        lemma_min_len(own, init);
        assert forall|i: int| 0 <= i < states.len() implies min_len(own, states) <= (
        #[trigger] states[i]).db_len by {
            if i < init.len() {
                assert(init[i] == states[i]);
            }
        }
        if min_len(own, states) != own {
            if states.last().db_len < min_len(own, init) {
                assert(states[states.len() - 1].db_len == min_len(own, states));
            } else {
                let i = choose|i: int|
                    0 <= i < init.len() && (#[trigger] init[i]).db_len == min_len(own, init);
                assert(states[i] == init[i]);
            }
        }
    }
}

/// A round in which every party reports the caller's length asks for no
/// rollback; otherwise the target is the lowest length that any party
/// reported, and no party reported less.
pub proof fn lemma_rollback_target(own: usize, states: Seq<SyncState>)
    ensures
        all_agree(own, states) ==> rollback_target(own, states) is None,
        !all_agree(own, states) ==> (rollback_target(own, states) matches Some(t) && t <= own && (
        forall|i: int| 0 <= i < states.len() ==> t <= (#[trigger] states[i]).db_len) && (t == own
            || exists|i: int| 0 <= i < states.len() && (#[trigger] states[i]).db_len == t)),
{
    lemma_min_len(own, states);
}

/// A copy of `st` with the same length and identifiers.
pub fn copy_state(st: &SyncState) -> (r: SyncState)
    ensures
        r.db_len == st.db_len,
        r.deleted_request_ids@ == st.deleted_request_ids@,
{
    let mut ids: Vec<String> = Vec::new();
    let mut i: usize = 0;
    while i < st.deleted_request_ids.len()
        invariant
            i <= st.deleted_request_ids@.len(),
            ids@ == st.deleted_request_ids@.subrange(0, i as int),
        decreases st.deleted_request_ids@.len() - i,
    {
        ids.push(st.deleted_request_ids[i].clone());
        i = i + 1;
        assert(ids@ =~= st.deleted_request_ids@.subrange(0, i as int));
    }
    assert(ids@ =~= st.deleted_request_ids@);
    SyncState { db_len: st.db_len, deleted_request_ids: ids }
}

impl SyncResult {
    pub fn new(my_state: SyncState, all_states: Vec<SyncState>) -> (r: SyncResult)
        ensures
            r.my_state == my_state,
            r.all_states == all_states,
    {
        SyncResult { my_state, all_states }
    }

    /// The database length to roll back to, if the parties disagree.
    pub fn must_rollback_storage(&self) -> (r: Option<usize>)
        ensures
            r == rollback_target(self.my_state.db_len, self.all_states@),
    {
        let own = self.my_state.db_len;
        let states = &self.all_states;
        let mut min = own;
        let mut agree = true;
        let mut i: usize = 0;
        while i < states.len()
            invariant
                i <= states@.len(),
                states == &self.all_states,
                own == self.my_state.db_len,
                min == min_len(own, states@.subrange(0, i as int)),
                agree == all_agree(own, states@.subrange(0, i as int)),
            decreases states@.len() - i,
        {
            let ghost pre = states@.subrange(0, i as int);
            let ghost next = states@.subrange(0, i + 1);
            assert(next.drop_last() =~= pre);
            let len = states[i].db_len;
            if len < min {
                min = len;
            }
            if len != own {
                agree = false;
                assert(next[i as int].db_len != own);
            } else {
                if agree {
                    assert forall|j: int| 0 <= j < next.len() implies (#[trigger] next[j]).db_len
                        == own by {
                        if j < i {
                            assert(next[j] == pre[j]);
                        }
                    }
                } else {
                    proof {
                        let j = choose|j: int|
                            0 <= j < pre.len() && (#[trigger] pre[j]).db_len != own;
                        assert(next[j] == pre[j]);
                    }
                }
            }
            i = i + 1;
        }
        assert(states@.subrange(0, i as int) =~= states@);
        if agree {
            None
        } else {
            Some(min)
        }
    }
}

/// Completes a synchronization round: `all_states_ser` is what the
/// all-gather of every party's record returned, in party order.
pub fn sync(state: &SyncState, all_states_ser: &[u8]) -> (r: Result<SyncResult, SyncError>)
    ensures
        r is Ok <==> all_states_ser@.len() % (SERIAL_SIZE as nat) == 0 && forall|i: int|
            0 <= i < all_states_ser@.len() / (SERIAL_SIZE as nat) ==> decodable(
                #[trigger] record(all_states_ser@, i),
            ),
        r matches Ok(res) ==> {
            &&& res.my_state.db_len == state.db_len
            &&& res.my_state.deleted_request_ids@ == state.deleted_request_ids@
            &&& res.all_states@.len() == all_states_ser@.len() / (SERIAL_SIZE as nat)
            &&& forall|i: int|
                0 <= i < res.all_states@.len() ==> decodes_to(
                    record(all_states_ser@, i),
                    #[trigger] res.all_states@[i],
                )
        },
        r is Err ==> r == Err::<SyncResult, SyncError>(SyncError::Malformed),
{
    let all_states = deserialize_all(all_states_ser)?;
    Ok(SyncResult::new(copy_state(state), all_states))
}

} // verus!
