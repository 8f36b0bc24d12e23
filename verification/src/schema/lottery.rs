//! The persistent lottery record and its fixed-length byte layout.
//!
//! | bytes                     | field                       |
//! |---------------------------|-----------------------------|
//! | `0..4`                    | `entry_fees`, little-endian |
//! | `4`                       | `initializers_commission`   |
//! | `5..37`                   | `initializer`               |
//! | `37 + 32k .. 69 + 32k`    | participant slot `k`        |

use crate::bytes::{
    empty_key, is_empty_key, read_u32_le, u32_from_le, u32_to_le, write_u32_le, KEY_LEN,
};
use crate::error::AppError;
use vstd::prelude::*;

verus! {

/// Number of participant slots in a lottery.
pub const MAX_PARTICIPANT: usize = 2;

/// Offset of the first participant slot in the packed record.
pub const SLOTS_OFFSET: usize = 4 + 1 + 32;

/// The lottery record as it is held in memory.
#[derive(Clone, Copy, Debug, PartialEq)]
pub struct Lottery {
    /// Price of one entry, in whole units of the native currency.
    pub entry_fees: u32,
    /// Percentage of the pot that goes to the initializer at resolution.
    pub initializers_commission: u8,
    /// Identifier of the account that may initialize and resolve the lottery.
    pub initializer: [u8; 32],
    /// Participant identifiers, filled from the left; zeros mark an empty slot.
    pub participants: [[u8; 32]; MAX_PARTICIPANT],
}

/// The mathematical value of a [`Lottery`].
pub struct LotteryView {
    pub entry_fees: u32,
    pub initializers_commission: u8,
    pub initializer: Seq<u8>,
    pub participants: Seq<Seq<u8>>,
}

impl View for Lottery {
    type V = LotteryView;

    open spec fn view(&self) -> LotteryView {
        LotteryView {
            entry_fees: self.entry_fees,
            initializers_commission: self.initializers_commission,
            initializer: self.initializer@,
            participants: Seq::new(MAX_PARTICIPANT as nat, |k: int| self.participants[k]@),
        }
    }
}

/// Whether a slot holds the empty marker.
pub open spec fn is_empty_slot(id: Seq<u8>) -> bool {
    id == empty_key()
}

impl LotteryView {
    /// The record has one initializer identifier and `MAX_PARTICIPANT` slots,
    /// each thirty-two bytes long.  Every view of a [`Lottery`] has this shape.
    pub open spec fn well_shaped(self) -> bool {
        &&& self.initializer.len() == KEY_LEN
        &&& self.participants.len() == MAX_PARTICIPANT
        &&& forall|k: int|
            0 <= k < self.participants.len() ==> (#[trigger] self.participants[k]).len() == KEY_LEN
    }

    /// No filled slot follows an empty one.
    pub open spec fn filled_from_left(self) -> bool {
        forall|i: int, j: int|
            0 <= i < j < self.participants.len() && is_empty_slot(#[trigger] self.participants[i])
                ==> is_empty_slot(#[trigger] self.participants[j])
    }

    /// No identifier holds two slots.
    pub open spec fn entries_distinct(self) -> bool {
        forall|i: int, j: int|
            0 <= i < j < self.participants.len() && !is_empty_slot(#[trigger] self.participants[i])
                ==> self.participants[i] != #[trigger] self.participants[j]
    }

    /// The invariant that every transition keeps: slots are filled strictly
    /// from the left and no identifier appears twice.
    pub open spec fn slots_consistent(self) -> bool {
        self.filled_from_left() && self.entries_distinct()
    }

    /// Every slot is taken.
    pub open spec fn is_full(self) -> bool {
        forall|k: int|
            0 <= k < self.participants.len() ==> !is_empty_slot(#[trigger] self.participants[k])
    }

    /// `key` holds one of the filled slots.
    pub open spec fn has_entry(self, key: Seq<u8>) -> bool {
        exists|k: int|
            0 <= k < self.participants.len() && !is_empty_slot(#[trigger] self.participants[k])
                && self.participants[k] == key
    }

    /// `k` is the leftmost empty slot.
    pub open spec fn is_first_empty(self, k: int) -> bool {
        &&& 0 <= k < self.participants.len()
        &&& is_empty_slot(self.participants[k])
        &&& forall|j: int| 0 <= j < k ==> !is_empty_slot(#[trigger] self.participants[j])
    }

    /// The leftmost empty slot of a record that is not full.
    pub open spec fn first_empty(self) -> int {
        choose|k: int| self.is_first_empty(k)
    }

    /// A record has at most one leftmost empty slot, so `first_empty` is it.
    pub proof fn lemma_first_empty(self, k: int)
        requires
            self.is_first_empty(k),
        ensures
            self.first_empty() == k,
            !self.is_full(),
    {
        let c = self.first_empty();
        assert(self.is_first_empty(c));
        if c < k {
            assert(!is_empty_slot(self.participants[c]));
        } else if k < c {
            assert(!is_empty_slot(self.participants[k]));
        }
    }

    /// The record with `key` written into slot `k`.
    pub open spec fn with_entry(self, k: int, key: Seq<u8>) -> LotteryView {
        LotteryView { participants: self.participants.update(k, key), ..self }
    }
}

/// The bytes of all slots, one slot after the other.
pub open spec fn slots_bytes(slots: Seq<Seq<u8>>) -> Seq<u8> {
    Seq::new(
        KEY_LEN as nat * slots.len(),
        |i: int| slots[i / (KEY_LEN as int)][i % (KEY_LEN as int)],
    )
}

/// The packed form of a record: its fields in declaration order.
pub open spec fn spec_pack(r: LotteryView) -> Seq<u8> {
    u32_to_le(r.entry_fees) + seq![r.initializers_commission] + r.initializer + slots_bytes(
        r.participants,
    )
}

/// The record that the first `Lottery::LEN` bytes of `s` spell.
pub open spec fn spec_unpack(s: Seq<u8>) -> LotteryView {
    LotteryView {
        entry_fees: u32_from_le(s.subrange(0, 4)) as u32,
        initializers_commission: s[4],
        initializer: s.subrange(5, SLOTS_OFFSET as int),
        participants: Seq::new(
            MAX_PARTICIPANT as nat,
            |k: int| s.subrange(SLOTS_OFFSET + KEY_LEN * k, SLOTS_OFFSET + KEY_LEN * k + KEY_LEN),
        ),
    }
}

impl Default for Lottery {
    /// The all-zero record: no fee, no commission, no initializer, no entries.
    fn default() -> (r: Lottery)
        ensures
            r@.entry_fees == 0,
            r@.initializers_commission == 0,
            r@.initializer == empty_key(),
            r@.participants == Seq::new(MAX_PARTICIPANT as nat, |k: int| empty_key()),
    {
        let r = Lottery {
            entry_fees: 0,
            initializers_commission: 0,
            initializer: [0u8; 32],
            participants: [[0u8; 32]; MAX_PARTICIPANT],
        };
        assert(r@.initializer =~= empty_key());
        assert forall|k: int| 0 <= k < MAX_PARTICIPANT implies #[trigger] r@.participants[k]
            == empty_key() by {
            assert(r.participants[k]@ =~= empty_key());
        }
        assert(r@.participants =~= Seq::new(MAX_PARTICIPANT as nat, |k: int| empty_key()));
        r
    }
}

impl Lottery {
    /// Length in bytes of a packed record.
    pub const LEN: usize = 4 + 1 + 32 + 32 * MAX_PARTICIPANT;

    /// A record is usable whatever it holds; there is no separate
    /// initialised flag.
    pub fn is_initialized(&self) -> (yes: bool)
        ensures
            yes,
    {
        true
    }

    /// Whether every slot is taken.
    pub fn is_full(&self) -> (full: bool)
        ensures
            full == self@.is_full(),
    {
        let mut k: usize = 0;
        while k < MAX_PARTICIPANT
            invariant
                k <= MAX_PARTICIPANT,
                forall|j: int| 0 <= j < k ==> !is_empty_slot(#[trigger] self@.participants[j]),
            decreases MAX_PARTICIPANT - k,
        {
            if is_empty_key(&self.participants[k]) {
                assert(is_empty_slot(self@.participants[k as int]));
                return false;
            }
            k = k + 1;
        }
        true
    }

    /// Every record has the shape that the layout needs.
    pub proof fn lemma_view_well_shaped(&self)
        ensures
            self@.well_shaped(),
    {
        assert forall|k: int| 0 <= k < self@.participants.len() implies (
        #[trigger] self@.participants[k]).len() == KEY_LEN by {
            assert(self.participants[k]@.len() == KEY_LEN);
        }
    }

    /// A record is determined by its value: two records with the same view
    /// are equal.
    pub proof fn lemma_view_determines_record(a: Lottery, b: Lottery)
        requires
            a@ == b@,
        ensures
            a == b,
    {
        assert(a.initializer =~= b.initializer);
        assert forall|k: int| 0 <= k < MAX_PARTICIPANT implies a.participants[k]
            == b.participants[k] by {
            assert(a@.participants[k] == b@.participants[k]);
            assert(a.participants[k] =~= b.participants[k]);
        }
        assert(a.participants =~= b.participants);
    }

    /// Decodes the record held in the first `LEN` bytes of `src`; bytes
    /// beyond them are not read.  Fails on a shorter buffer.
    pub fn unpack_from_slice(src: &[u8]) -> (result: Result<Lottery, AppError>)
        ensures
            src@.len() < Lottery::LEN ==> result == Err::<Lottery, AppError>(
                AppError::InvalidAccountData,
            ),
            src@.len() >= Lottery::LEN ==> result is Ok && result->Ok_0@ == spec_unpack(src@),
    {
        if src.len() < Lottery::LEN {
            return Err(AppError::InvalidAccountData);
        }
        let entry_fees: u32 = read_u32_le(src, 0);
        let initializers_commission: u8 = src[4];
        let mut initializer: [u8; 32] = [0u8; 32];
        let mut i: usize = 0;
        while i < KEY_LEN
            invariant
                i <= KEY_LEN,
                src@.len() >= Lottery::LEN,
                forall|j: int| 0 <= j < i ==> initializer@[j] == src@[5 + j],
            decreases KEY_LEN - i,
        {
            initializer[i] = src[5 + i];
            i = i + 1;
        }
        let mut participants: [[u8; 32]; MAX_PARTICIPANT] = [[0u8; 32]; MAX_PARTICIPANT];
        let mut k: usize = 0;
        while k < MAX_PARTICIPANT
            invariant
                k <= MAX_PARTICIPANT,
                src@.len() >= Lottery::LEN,
                forall|m: int, j: int|
                    0 <= m < k && 0 <= j < KEY_LEN ==> #[trigger] participants@[m]@[j] == src@[SLOTS_OFFSET
                        + KEY_LEN * m + j],
            decreases MAX_PARTICIPANT - k,
        {
            let mut slot: [u8; 32] = [0u8; 32];
            let mut j: usize = 0;
            while j < KEY_LEN
                invariant
                    j <= KEY_LEN,
                    k < MAX_PARTICIPANT,
                    src@.len() >= Lottery::LEN,
                    forall|n: int| 0 <= n < j ==> slot@[n] == src@[SLOTS_OFFSET + KEY_LEN * k + n],
                decreases KEY_LEN - j,
            {
                slot[j] = src[SLOTS_OFFSET + KEY_LEN * k + j];
                j = j + 1;
            }
            participants[k] = slot;
            k = k + 1;
        }
        let record = Lottery { entry_fees, initializers_commission, initializer, participants };
        proof {
            let want = spec_unpack(src@);
            assert(record@.initializer =~= want.initializer);
            assert forall|m: int| 0 <= m < MAX_PARTICIPANT implies #[trigger] record@.participants[m]
                == want.participants[m] by {
                assert(record.participants[m]@ =~= want.participants[m]);
            }
            assert(record@.participants =~= want.participants);
        }
        Ok(record)
    }

    /// Writes the packed record into the first `LEN` bytes of `dst` and
    /// leaves the rest of `dst` as it was.
    pub fn pack_into_slice(&self, dst: &mut [u8])
        requires
            old(dst)@.len() >= Lottery::LEN,
        ensures
            final(dst)@.len() == old(dst)@.len(),
            final(dst)@.subrange(0, Lottery::LEN as int) == spec_pack(self@),
            final(dst)@.subrange(Lottery::LEN as int, old(dst)@.len() as int) == old(dst)@.subrange(
                Lottery::LEN as int,
                old(dst)@.len() as int,
            ),
    {
        write_u32_le(dst, 0, self.entry_fees);
        dst[4] = self.initializers_commission;
        let mut i: usize = 0;
        while i < KEY_LEN
            invariant
                i <= KEY_LEN,
                dst@.len() == old(dst)@.len(),
                dst@.len() >= Lottery::LEN,
                dst@.subrange(0, 4) == u32_to_le(self.entry_fees),
                dst@[4] == self.initializers_commission,
                forall|j: int| 0 <= j < i ==> dst@[5 + j] == self.initializer@[j],
                forall|j: int| Lottery::LEN <= j < dst@.len() ==> dst@[j] == old(dst)@[j],
            decreases KEY_LEN - i,
        {
            dst[5 + i] = self.initializer[i];
            assert(dst@.subrange(0, 4) =~= u32_to_le(self.entry_fees));
            i = i + 1;
        }
        let mut k: usize = 0;
        while k < MAX_PARTICIPANT
            invariant
                k <= MAX_PARTICIPANT,
                dst@.len() == old(dst)@.len(),
                dst@.len() >= Lottery::LEN,
                dst@.subrange(0, 4) == u32_to_le(self.entry_fees),
                dst@[4] == self.initializers_commission,
                forall|j: int| 0 <= j < KEY_LEN ==> dst@[5 + j] == self.initializer@[j],
                forall|m: int, j: int|
                    0 <= m < k && 0 <= j < KEY_LEN ==> dst@[SLOTS_OFFSET + KEY_LEN * m + j]
                        == #[trigger] self.participants@[m]@[j],
                forall|j: int| Lottery::LEN <= j < dst@.len() ==> dst@[j] == old(dst)@[j],
            decreases MAX_PARTICIPANT - k,
        {
            let mut j: usize = 0;
            while j < KEY_LEN
                invariant
                    j <= KEY_LEN,
                    k < MAX_PARTICIPANT,
                    dst@.len() == old(dst)@.len(),
                    dst@.len() >= Lottery::LEN,
                    dst@.subrange(0, 4) == u32_to_le(self.entry_fees),
                    dst@[4] == self.initializers_commission,
                    forall|n: int| 0 <= n < KEY_LEN ==> dst@[5 + n] == self.initializer@[n],
                    forall|m: int, n: int|
                        0 <= m < k && 0 <= n < KEY_LEN ==> dst@[SLOTS_OFFSET + KEY_LEN * m + n]
                            == #[trigger] self.participants@[m]@[n],
                    forall|n: int|
                        0 <= n < j ==> dst@[SLOTS_OFFSET + KEY_LEN * k + n]
                            == self.participants@[k as int]@[n],
                    forall|n: int| Lottery::LEN <= n < dst@.len() ==> dst@[n] == old(dst)@[n],
                decreases KEY_LEN - j,
            {
                dst[SLOTS_OFFSET + KEY_LEN * k + j] = self.participants[k][j];
                assert(dst@.subrange(0, 4) =~= u32_to_le(self.entry_fees));
                j = j + 1;
            }
            k = k + 1;
        }
        proof {
            let want = spec_pack(self@);
            let got = dst@.subrange(0, Lottery::LEN as int);
            assert(want.len() == Lottery::LEN);
            assert forall|p: int| 0 <= p < Lottery::LEN implies got[p] == want[p] by {
                if p < 4 {
                    assert(got[p] == dst@.subrange(0, 4)[p]);
                } else if p == 4 {
                } else if p < SLOTS_OFFSET {
                    assert(got[p] == dst@[5 + (p - 5)]);
                } else {
                    let q = p - SLOTS_OFFSET;
                    let m = q / 32;
                    let n = q % 32;
                    assert(got[p] == dst@[SLOTS_OFFSET + KEY_LEN * m + n]);
                    assert(self@.participants[m] == self.participants@[m]@);
                }
            }
            assert(got =~= want);
            assert(dst@.subrange(Lottery::LEN as int, dst@.len() as int) =~= old(dst)@.subrange(
                Lottery::LEN as int,
                old(dst)@.len() as int,
            ));
        }
    }

    /// Decodes a record from a buffer of exactly `LEN` bytes.
    pub fn unpack(input: &[u8]) -> (result: Result<Lottery, AppError>)
        ensures
            input@.len() != Lottery::LEN ==> result == Err::<Lottery, AppError>(
                AppError::InvalidAccountData,
            ),
            input@.len() == Lottery::LEN ==> result is Ok && result->Ok_0@ == spec_unpack(input@),
    {
        if input.len() != Lottery::LEN {
            return Err(AppError::InvalidAccountData);
        }
        Lottery::unpack_from_slice(input)
    }

    /// Encodes `src` into a buffer of exactly `LEN` bytes; any other buffer
    /// is refused and left as it was.
    pub fn pack(src: Lottery, dst: &mut [u8]) -> (result: Result<(), AppError>)
        ensures
            old(dst)@.len() != Lottery::LEN ==> result == Err::<(), AppError>(
                AppError::InvalidAccountData,
            ) && final(dst)@ == old(dst)@,
            old(dst)@.len() == Lottery::LEN ==> result is Ok && final(dst)@ == spec_pack(src@),
    {
        if dst.len() != Lottery::LEN {
            return Err(AppError::InvalidAccountData);
        }
        src.pack_into_slice(dst);
        assert(dst@.subrange(0, Lottery::LEN as int) =~= dst@);
        Ok(())
    }
}

} // verus!
