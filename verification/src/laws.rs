//! Properties of the codecs and of the state machine, stated over the spec
//! functions that the contracts of the executable code use.

use crate::account::{
    accounts_well_shaped, lemma_total_lamports_update, total_lamports, AccountView,
};
use crate::bytes::{lemma_u32_from_to_le, lemma_u32_to_from_le, u32_to_le, KEY_LEN};
use crate::error::AppError;
use crate::instruction::{spec_unpack_instruction, AppInstruction};
use crate::processor::{
    commission_amount, entry_amount, first_candidate, fresh_record, is_first_candidate, pot,
    spec_authorize, spec_init, spec_load_record, spec_participate, spec_pick_winner, spec_process,
    spec_settle, spec_winner_index, storage_state, LotteryState,
};
use crate::schema::lottery::{
    is_empty_slot, slots_bytes, spec_pack, spec_unpack, Lottery, LotteryView, MAX_PARTICIPANT,
    SLOTS_OFFSET,
};
use vstd::prelude::*;

verus! {

/// The packed form of a record is `Lottery::LEN` bytes long, and decoding it
/// gives the record back.
pub proof fn lemma_unpack_pack(r: LotteryView)
    requires
        r.well_shaped(),
    ensures
        spec_pack(r).len() == Lottery::LEN,
        spec_unpack(spec_pack(r)) == r,
{
    let s = spec_pack(r);
    let back = spec_unpack(s);
    lemma_u32_from_to_le(r.entry_fees);
    assert(s.subrange(0, 4) =~= u32_to_le(r.entry_fees));
    assert(back.initializer =~= r.initializer);
    assert forall|k: int| 0 <= k < MAX_PARTICIPANT implies #[trigger] back.participants[k]
        == r.participants[k] by {
        let slot = s.subrange(SLOTS_OFFSET + KEY_LEN * k, SLOTS_OFFSET + KEY_LEN * k + KEY_LEN);
        assert forall|j: int| 0 <= j < KEY_LEN implies slot[j] == r.participants[k][j] by {
            let i = KEY_LEN * k + j;
            assert(slot[j] == slots_bytes(r.participants)[i]);
            assert(i / 32 == k && i % 32 == j);
        }
        assert(slot =~= r.participants[k]);
    }
    assert(back.participants =~= r.participants);
}

/// Every record survives the round trip through its packed form, which is
/// `Lottery::LEN` bytes long.
pub proof fn lemma_round_trip(record: Lottery)
    ensures
        spec_pack(record@).len() == Lottery::LEN,
        spec_unpack(spec_pack(record@)) == record@,
{
    record.lemma_view_well_shaped();
    lemma_unpack_pack(record@);
}

/// Decoding a buffer of `Lottery::LEN` bytes gives a well-shaped record,
/// and packing that record gives the buffer back.
pub proof fn lemma_pack_unpack(s: Seq<u8>)
    requires
        s.len() == Lottery::LEN,
    ensures
        spec_unpack(s).well_shaped(),
        spec_pack(spec_unpack(s)) == s,
{
    let r = spec_unpack(s);
    lemma_u32_to_from_le(s.subrange(0, 4));
    let again = spec_pack(r);
    assert forall|p: int| 0 <= p < Lottery::LEN implies again[p] == s[p] by {
        if p < 4 {
            assert(again[p] == s.subrange(0, 4)[p]);
        } else if p >= SLOTS_OFFSET {
            let i = p - SLOTS_OFFSET;
            assert(again[p] == slots_bytes(r.participants)[i]);
            assert(KEY_LEN * (i / 32) + i % 32 == i);
        }
    }
    assert(again =~= s);
}

/// A lottery that has just been initialised has no entries, and its slots
/// are consistent.
pub proof fn lemma_fresh_record_is_open(entry_fees: u32, commission: u8, initializer: Seq<u8>)
    ensures
        fresh_record(entry_fees, commission, initializer).slots_consistent(),
        forall|key: Seq<u8>| !fresh_record(entry_fees, commission, initializer).has_entry(key),
        !fresh_record(entry_fees, commission, initializer).is_full(),
{
    let r = fresh_record(entry_fees, commission, initializer);
    assert(is_empty_slot(r.participants[0]));
}

/// A successful `Init` leaves a fresh record with the caller as initializer
/// in the storage account, and moves no funds.
pub proof fn lemma_init_writes_fresh_record(
    program_id: Seq<u8>,
    accounts: Seq<AccountView>,
    entry_fees: u32,
    commission: u8,
)
    requires
        accounts_well_shaped(accounts),
        spec_init(program_id, accounts, entry_fees, commission) is Ok,
    ensures
        ({
            let next = spec_init(program_id, accounts, entry_fees, commission)->Ok_0;
            &&& next.len() == accounts.len()
            &&& next[1].data.len() == Lottery::LEN
            &&& spec_unpack(next[1].data) == fresh_record(entry_fees, commission, accounts[0].key)
            &&& forall|i: int| 0 <= i < accounts.len() ==> next[i].lamports == accounts[i].lamports
        }),
{
    let fresh = fresh_record(entry_fees, commission, accounts[0].key);
    assert(accounts[0].well_shaped());
    lemma_unpack_pack(fresh);
}

/// A successful entry changes nothing of the record but one slot: the
/// leftmost empty one now holds the participant.  If the slots were
/// consistent they still are, and the fee has moved from the participant to
/// the storage account.
pub proof fn lemma_participate_fills_first_empty(program_id: Seq<u8>, accounts: Seq<AccountView>)
    requires
        accounts_well_shaped(accounts),
        spec_participate(program_id, accounts) is Ok,
    ensures
        ({
            let next = spec_participate(program_id, accounts)->Ok_0;
            let old_record = spec_unpack(accounts[1].data);
            let new_record = spec_unpack(next[1].data);
            let k = old_record.first_empty();
            &&& next.len() == accounts.len()
            &&& next[1].data.len() == Lottery::LEN
            &&& old_record.is_first_empty(k)
            &&& new_record == old_record.with_entry(k, accounts[0].key)
            &&& old_record.slots_consistent() ==> new_record.slots_consistent()
            &&& next[0].lamports == accounts[0].lamports - entry_amount(old_record.entry_fees)
            &&& next[1].lamports == accounts[1].lamports + entry_amount(old_record.entry_fees)
        }),
{
    let next = spec_participate(program_id, accounts)->Ok_0;
    let old_record = spec_unpack(accounts[1].data);
    let key = accounts[0].key;
    lemma_pack_unpack(accounts[1].data);
    assert(accounts[0].well_shaped());
    lemma_has_first_empty(old_record);
    let k = old_record.first_empty();
    let entered = old_record.with_entry(k, key);
    assert forall|j: int| 0 <= j < entered.participants.len() implies (
    #[trigger] entered.participants[j]).len() == KEY_LEN by {
        if j != k {
            assert(entered.participants[j] == old_record.participants[j]);
        }
    }
    lemma_unpack_pack(entered);
    if old_record.slots_consistent() {
        assert forall|i: int, j: int|
            0 <= i < j < entered.participants.len() && is_empty_slot(
                #[trigger] entered.participants[i],
            ) implies is_empty_slot(#[trigger] entered.participants[j]) by {
            if i == k {
                assert(is_empty_slot(old_record.participants[i]));
                assert(is_empty_slot(old_record.participants[j]));
            } else {
                assert(is_empty_slot(old_record.participants[i]));
                if j == k {
                    assert(!is_empty_slot(old_record.participants[i]));
                } else {
                    assert(is_empty_slot(old_record.participants[j]));
                }
            }
        }
        assert forall|i: int, j: int|
            0 <= i < j < entered.participants.len() && !is_empty_slot(
                #[trigger] entered.participants[i],
            ) implies entered.participants[i] != #[trigger] entered.participants[j] by {
            if i == k {
                if j != k && is_empty_slot(old_record.participants[j]) {
                } else {
                    assert(is_empty_slot(old_record.participants[i]));
                    assert(is_empty_slot(old_record.participants[j]));
                }
            } else if j == k {
                assert(!is_empty_slot(old_record.participants[i]));
                if old_record.participants[i] == key {
                    assert(old_record.has_entry(key));
                }
            } else {
                assert(!is_empty_slot(old_record.participants[i]));
            }
        }
    }
}

/// A record that is not full has a leftmost empty slot.
pub proof fn lemma_has_first_empty(r: LotteryView)
    requires
        !r.is_full(),
    ensures
        r.is_first_empty(r.first_empty()),
{
    let some = choose|k: int| 0 <= k < r.participants.len() && is_empty_slot(r.participants[k]);
    lemma_first_empty_up_to(r, some);
}

/// If slot `k` is empty, some slot at or before `k` is the leftmost empty one.
proof fn lemma_first_empty_up_to(r: LotteryView, k: int)
    requires
        0 <= k < r.participants.len(),
        is_empty_slot(r.participants[k]),
    ensures
        exists|f: int| r.is_first_empty(f),
    decreases k,
{
    if exists|j: int| 0 <= j < k && is_empty_slot(r.participants[j]) {
        let j = choose|j: int| 0 <= j < k && is_empty_slot(r.participants[j]);
        lemma_first_empty_up_to(r, j);
    } else {
        assert(r.is_first_empty(k));
    }
}

/// Entering twice: once an identifier other than the empty marker has
/// entered, a second entry by it is refused as a duplicate.
pub proof fn lemma_second_entry_is_duplicate(program_id: Seq<u8>, accounts: Seq<AccountView>)
    requires
        accounts_well_shaped(accounts),
        !is_empty_slot(accounts[0].key),
        spec_participate(program_id, accounts) is Ok,
    ensures
        spec_participate(program_id, spec_participate(program_id, accounts)->Ok_0) == Err::<
            Seq<AccountView>,
            AppError,
        >(AppError::DuplicateEntry),
{
    let next = spec_participate(program_id, accounts)->Ok_0;
    lemma_participate_fills_first_empty(program_id, accounts);
    let old_record = spec_unpack(accounts[1].data);
    let new_record = spec_unpack(next[1].data);
    let k = old_record.first_empty();
    assert(new_record.participants[k] == accounts[0].key);
    assert(new_record.has_entry(accounts[0].key));
}

/// The entry that takes the last slot fills the lottery.
pub proof fn lemma_last_entry_fills_lottery(program_id: Seq<u8>, accounts: Seq<AccountView>)
    requires
        accounts_well_shaped(accounts),
        !is_empty_slot(accounts[0].key),
        spec_participate(program_id, accounts) is Ok,
        spec_unpack(accounts[1].data).first_empty() == MAX_PARTICIPANT - 1,
    ensures
        spec_unpack(spec_participate(program_id, accounts)->Ok_0[1].data).is_full(),
{
    lemma_participate_fills_first_empty(program_id, accounts);
    let old_record = spec_unpack(accounts[1].data);
    let new_record = spec_unpack(spec_participate(program_id, accounts)->Ok_0[1].data);
    assert forall|k: int| 0 <= k < new_record.participants.len() implies !is_empty_slot(
        #[trigger] new_record.participants[k],
    ) by {
        if k < MAX_PARTICIPANT - 1 {
            assert(!is_empty_slot(old_record.participants[k]));
        }
    }
}

/// An entry into a full lottery by an identifier that holds no slot is
/// refused for want of room.
pub proof fn lemma_full_lottery_has_no_room(program_id: Seq<u8>, accounts: Seq<AccountView>)
    requires
        spec_load_record(program_id, accounts, 3, AppError::InvalidInstruction) is Ok,
        spec_unpack(accounts[1].data).is_full(),
        !spec_unpack(accounts[1].data).has_entry(accounts[0].key),
    ensures
        spec_participate(program_id, accounts) == Err::<Seq<AccountView>, AppError>(
            AppError::NoRoom,
        ),
{
}

/// A resolution asked for by the stored initializer while a slot is empty
/// is refused, whatever the time.
pub proof fn lemma_resolution_needs_full_lottery(
    program_id: Seq<u8>,
    accounts: Seq<AccountView>,
    k: int,
    now: i64,
)
    requires
        spec_load_record(program_id, accounts, 2, AppError::MustSigner) is Ok,
        accounts[0].key == spec_unpack(accounts[1].data).initializer,
        0 <= k < MAX_PARTICIPANT,
        is_empty_slot(spec_unpack(accounts[1].data).participants[k]),
    ensures
        spec_pick_winner(program_id, accounts, now) == Err::<Seq<AccountView>, AppError>(
            AppError::EmptyRoom,
        ),
{
    let record = spec_unpack(accounts[1].data);
    assert(!record.is_full());
}

/// A resolution asked for by anyone but the stored initializer is refused,
/// whatever the time and whatever the slots hold.
pub proof fn lemma_resolution_needs_initializer(
    program_id: Seq<u8>,
    accounts: Seq<AccountView>,
    now: i64,
)
    requires
        spec_load_record(program_id, accounts, 2, AppError::MustSigner) is Ok,
        accounts[0].key != spec_unpack(accounts[1].data).initializer,
    ensures
        spec_pick_winner(program_id, accounts, now) == Err::<Seq<AccountView>, AppError>(
            AppError::Unauthorized,
        ),
{
}

/// The split of a pot: the commission is at most the pot, and the winner's
/// share, the commission and what the storage held beyond the pot add up to
/// the storage balance.
pub proof fn lemma_payout_adds_up(balance: u64, entry_fees: u32, percent: u8)
    requires
        percent <= 100,
        pot(entry_fees) <= balance,
    ensures
        ({
            let pot = pot(entry_fees);
            let commission = commission_amount(pot, percent);
            let winner_amount = pot - commission;
            let remainder = balance - pot;
            &&& 0 <= commission <= pot
            &&& winner_amount + commission + remainder == balance
        }),
{
    let p = pot(entry_fees);
    assert(0 <= p * percent <= p * 100) by (nonlinear_arith)
        requires
            0 <= p,
            0 <= percent <= 100,
    ;
}

/// A resolution pays the winner the pot less the commission, pays the
/// initializer the rest of what the storage held, and leaves the storage
/// empty and cleared.
pub proof fn lemma_settle_pays_out(accounts: Seq<AccountView>, record: LotteryView, index: int)
    requires
        spec_settle(accounts, record, index) is Ok,
    ensures
        ({
            let next = spec_settle(accounts, record, index)->Ok_0;
            let w = first_candidate(accounts, record.participants[index]);
            let pot = pot(record.entry_fees);
            let commission = commission_amount(pot, record.initializers_commission);
            &&& is_first_candidate(accounts, record.participants[index], w)
            &&& next.len() == accounts.len()
            &&& next[1].lamports == 0
            &&& next[1].data.len() == 0
            &&& next[w].lamports == accounts[w].lamports + pot - commission
            &&& next[0].lamports == accounts[0].lamports + accounts[1].lamports - pot + commission
            &&& total_lamports(next) == total_lamports(accounts)
        }),
{
    let winner = record.participants[index];
    let some = choose|j: int| 2 <= j < accounts.len() && (#[trigger] accounts[j]).key == winner;
    lemma_first_candidate_up_to(accounts, winner, some);
    let w = first_candidate(accounts, winner);
    lemma_payout_adds_up(accounts[1].lamports, record.entry_fees, record.initializers_commission);
    let s1 = accounts.update(
        1,
        AccountView { lamports: 0, data: Seq::empty(), ..accounts[1] },
    );
    let pot = pot(record.entry_fees);
    let commission = commission_amount(pot, record.initializers_commission);
    let s2 = s1.update(
        w,
        AccountView { lamports: (accounts[w].lamports + (pot - commission)) as u64, ..accounts[w] },
    );
    lemma_total_lamports_update(accounts, 1, s1[1]);
    lemma_total_lamports_update(s1, w, s2[w]);
    lemma_total_lamports_update(s2, 0, spec_settle(accounts, record, index)->Ok_0[0]);
}

/// If a candidate at `j` carries `key`, some candidate at or before `j` is
/// the first to carry it.
proof fn lemma_first_candidate_up_to(accounts: Seq<AccountView>, key: Seq<u8>, j: int)
    requires
        2 <= j < accounts.len(),
        accounts[j].key == key,
    ensures
        is_first_candidate(accounts, key, first_candidate(accounts, key)),
    decreases j,
{
    if exists|i: int| 2 <= i < j && (#[trigger] accounts[i]).key == key {
        let i = choose|i: int| 2 <= i < j && (#[trigger] accounts[i]).key == key;
        lemma_first_candidate_up_to(accounts, key, i);
    } else {
        assert(is_first_candidate(accounts, key, j));
    }
}

/// No instruction creates or destroys funds: whatever it does, the balances
/// of the accounts add up to what they added up to before.
pub proof fn lemma_process_conserves_lamports(
    program_id: Seq<u8>,
    accounts: Seq<AccountView>,
    instruction_data: Seq<u8>,
    now: i64,
)
    requires
        spec_process(program_id, accounts, instruction_data, now) is Ok,
    ensures
        total_lamports(spec_process(program_id, accounts, instruction_data, now)->Ok_0)
            == total_lamports(accounts),
{
    match spec_unpack_instruction(instruction_data) {
        None => {},
        Some(AppInstruction::Init { entry_fees, initializers_commission }) => {
            let next = spec_init(program_id, accounts, entry_fees, initializers_commission)->Ok_0;
            lemma_total_lamports_update(accounts, 1, next[1]);
        },
        Some(AppInstruction::Participate) => {
            let next = spec_participate(program_id, accounts)->Ok_0;
            let s1 = accounts.update(0, next[0]);
            lemma_total_lamports_update(accounts, 0, next[0]);
            lemma_total_lamports_update(s1, 1, next[1]);
            assert(next =~= s1.update(1, next[1]));
        },
        Some(AppInstruction::PickWinner) => {
            let record = spec_authorize(program_id, accounts)->Ok_0;
            lemma_settle_pays_out(
                accounts,
                record,
                spec_winner_index(now, MAX_PARTICIPANT as int),
            );
        },
    }
}

/// No instruction changes who the accounts are: their number, identifiers,
/// owners and signatures stay, and only the storage account's data can
/// change.
pub proof fn lemma_process_keeps_identities(
    program_id: Seq<u8>,
    accounts: Seq<AccountView>,
    instruction_data: Seq<u8>,
    now: i64,
)
    requires
        spec_process(program_id, accounts, instruction_data, now) is Ok,
    ensures
        ({
            let next = spec_process(program_id, accounts, instruction_data, now)->Ok_0;
            &&& next.len() == accounts.len()
            &&& forall|i: int|
                0 <= i < accounts.len() ==> {
                    &&& (#[trigger] next[i]).key == accounts[i].key
                    &&& next[i].owner == accounts[i].owner
                    &&& next[i].is_signer == accounts[i].is_signer
                    &&& i != 1 ==> next[i].data == accounts[i].data
                }
        }),
{
    if spec_unpack_instruction(instruction_data) == Some(AppInstruction::PickWinner) {
        let record = spec_authorize(program_id, accounts)->Ok_0;
        lemma_settle_pays_out(accounts, record, spec_winner_index(now, MAX_PARTICIPANT as int));
    }
}

/// The instructions move a lottery through its states in one direction
/// only: `Init` opens it, an entry is taken by an open lottery and leaves it
/// open or full, and a resolution is taken by a full lottery and leaves
/// nothing behind.
pub proof fn lemma_state_transitions(
    program_id: Seq<u8>,
    accounts: Seq<AccountView>,
    instruction_data: Seq<u8>,
    now: i64,
)
    requires
        accounts_well_shaped(accounts),
        spec_process(program_id, accounts, instruction_data, now) is Ok,
    ensures
        ({
            let next = spec_process(program_id, accounts, instruction_data, now)->Ok_0;
            let before = storage_state(accounts[1].data);
            let after = storage_state(next[1].data);
            match spec_unpack_instruction(instruction_data) {
                Some(AppInstruction::Init { .. }) => before != LotteryState::Absent && after
                    == LotteryState::Open,
                Some(AppInstruction::Participate) => before == LotteryState::Open && after
                    != LotteryState::Absent,
                Some(AppInstruction::PickWinner) => before == LotteryState::Full && after
                    == LotteryState::Absent,
                None => false,
            }
        }),
{
    match spec_unpack_instruction(instruction_data) {
        None => {},
        Some(AppInstruction::Init { entry_fees, initializers_commission }) => {
            lemma_init_writes_fresh_record(
                program_id,
                accounts,
                entry_fees,
                initializers_commission,
            );
            lemma_fresh_record_is_open(entry_fees, initializers_commission, accounts[0].key);
        },
        Some(AppInstruction::Participate) => {
            lemma_participate_fills_first_empty(program_id, accounts);
        },
        Some(AppInstruction::PickWinner) => {
            let record = spec_authorize(program_id, accounts)->Ok_0;
            lemma_settle_pays_out(accounts, record, spec_winner_index(now, MAX_PARTICIPANT as int));
        },
    }
}

/// Storage that does not hold a record, because it was cleared or was never
/// there, is terminal: every instruction against it fails.
pub proof fn lemma_cleared_storage_is_terminal(
    program_id: Seq<u8>,
    accounts: Seq<AccountView>,
    instruction_data: Seq<u8>,
    now: i64,
)
    requires
        accounts.len() < 2 || accounts[1].data.len() != Lottery::LEN,
    ensures
        spec_process(program_id, accounts, instruction_data, now) is Err,
{
}

/// A resolved lottery is terminal: after a successful resolution every
/// further instruction fails.
pub proof fn lemma_resolved_lottery_is_terminal(
    program_id: Seq<u8>,
    accounts: Seq<AccountView>,
    now: i64,
    instruction_data: Seq<u8>,
    later: i64,
)
    requires
        spec_pick_winner(program_id, accounts, now) is Ok,
    ensures
        spec_process(
            program_id,
            spec_pick_winner(program_id, accounts, now)->Ok_0,
            instruction_data,
            later,
        ) is Err,
{
    let record = spec_authorize(program_id, accounts)->Ok_0;
    lemma_settle_pays_out(
        accounts,
        record,
        spec_winner_index(now, MAX_PARTICIPANT as int),
    );
    lemma_cleared_storage_is_terminal(
        program_id,
        spec_pick_winner(program_id, accounts, now)->Ok_0,
        instruction_data,
        later,
    );
}

} // verus!
