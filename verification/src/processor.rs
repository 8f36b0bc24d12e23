//! The lottery state machine: what each instruction checks, what it changes,
//! and what it pays.
//!
//! Accounts are positional.  The first account is the one that must sign (the
//! initializer, or the participant), the second is the lottery's storage; a
//! resolution also takes the candidate accounts among which the winner is
//! looked up, from the third on.

use crate::account::{accounts_view, Account, AccountView};
use crate::bytes::{empty_key, is_empty_key, keys_equal};
use crate::error::AppError;
use crate::instruction::{spec_unpack_instruction, AppInstruction};
use crate::schema::lottery::{
    is_empty_slot, spec_pack, spec_unpack, Lottery, LotteryView, MAX_PARTICIPANT,
};
use crate::sysvar::{clock_unix_timestamp, lamports_per_sol, LAMPORTS_PER_SOL};
use vstd::prelude::*;

verus! {

/// Where a lottery stands.  The state is not stored; it is read off the
/// storage account's data.
#[derive(Clone, Copy, Debug, PartialEq, Eq, Structural)]
pub enum LotteryState {
    /// The storage holds no record: it was never allocated, or the lottery
    /// was resolved and its storage cleared.
    Absent,
    /// The storage holds a record with at least one empty slot.
    Open,
    /// The storage holds a record whose slots are all taken.
    Full,
}

/// The state of the lottery whose storage holds `data`.
pub open spec fn storage_state(data: Seq<u8>) -> LotteryState {
    if data.len() != Lottery::LEN {
        LotteryState::Absent
    } else if spec_unpack(data).is_full() {
        LotteryState::Full
    } else {
        LotteryState::Open
    }
}

/// The checks that every instruction starts with, and the record they end
/// in.  `required` is the number of accounts the instruction needs and
/// `unsigned` the error it gives when the first account did not sign.
pub open spec fn spec_load_record(
    program_id: Seq<u8>,
    accounts: Seq<AccountView>,
    required: int,
    unsigned: AppError,
) -> Result<LotteryView, AppError> {
    if accounts.len() < required {
        Err(AppError::NotEnoughAccountKeys)
    } else if accounts[1].owner != program_id {
        Err(AppError::IncorrectProgramId)
    } else if !accounts[0].is_signer {
        Err(unsigned)
    } else if accounts[1].data.len() != Lottery::LEN {
        Err(AppError::InvalidAccountData)
    } else {
        Ok(spec_unpack(accounts[1].data))
    }
}

/// The record that `Init` writes.
pub open spec fn fresh_record(entry_fees: u32, commission: u8, initializer: Seq<u8>) -> LotteryView {
    LotteryView {
        entry_fees,
        initializers_commission: commission,
        initializer,
        participants: Seq::new(MAX_PARTICIPANT as nat, |k: int| empty_key()),
    }
}

/// `Init`: the storage takes a fresh record; nothing else changes.
pub open spec fn spec_init(
    program_id: Seq<u8>,
    accounts: Seq<AccountView>,
    entry_fees: u32,
    commission: u8,
) -> Result<Seq<AccountView>, AppError> {
    match spec_load_record(program_id, accounts, 2, AppError::InvalidInstruction) {
        Err(e) => Err(e),
        Ok(_) => Ok(
            accounts.update(
                1,
                AccountView {
                    data: spec_pack(fresh_record(entry_fees, commission, accounts[0].key)),
                    ..accounts[1]
                },
            ),
        ),
    }
}

/// The price of one entry in base units.  Amounts are whole numbers
/// throughout: a fee of `f` units is exactly `f * LAMPORTS_PER_SOL` base
/// units.
pub open spec fn entry_amount(entry_fees: u32) -> int {
    entry_fees * LAMPORTS_PER_SOL
}

/// `Participate`: the first account takes the leftmost empty slot and pays
/// the entry fee to the storage account.
pub open spec fn spec_participate(program_id: Seq<u8>, accounts: Seq<AccountView>) -> Result<
    Seq<AccountView>,
    AppError,
> {
    match spec_load_record(program_id, accounts, 3, AppError::InvalidInstruction) {
        Err(e) => Err(e),
        Ok(record) => {
            let key = accounts[0].key;
            let amount = entry_amount(record.entry_fees);
            if record.has_entry(key) {
                Err(AppError::DuplicateEntry)
            } else if record.is_full() {
                Err(AppError::NoRoom)
            } else if accounts[0].lamports < amount {
                Err(AppError::LowBalance)
            } else if accounts[1].lamports + amount > u64::MAX {
                Err(AppError::ArithmeticOverflow)
            } else {
                Ok(
                    accounts.update(
                        0,
                        AccountView {
                            lamports: (accounts[0].lamports - amount) as u64,
                            ..accounts[0]
                        },
                    ).update(
                        1,
                        AccountView {
                            lamports: (accounts[1].lamports + amount) as u64,
                            data: spec_pack(record.with_entry(record.first_empty(), key)),
                            ..accounts[1]
                        },
                    ),
                )
            }
        },
    }
}

/// The checks that come before a resolution: the caller is the stored
/// initializer and every slot is taken.
pub open spec fn spec_authorize(program_id: Seq<u8>, accounts: Seq<AccountView>) -> Result<
    LotteryView,
    AppError,
> {
    match spec_load_record(program_id, accounts, 2, AppError::MustSigner) {
        Err(e) => Err(e),
        Ok(record) => if accounts[0].key != record.initializer {
            Err(AppError::Unauthorized)
        } else if !record.is_full() {
            Err(AppError::EmptyRoom)
        } else {
            Ok(record)
        },
    }
}

/// A timestamp read as an unsigned 64-bit number (two's complement).
pub open spec fn clock_seed(now: i64) -> int {
    if now >= 0 {
        now as int
    } else {
        now + 0x1_0000_0000_0000_0000
    }
}

/// The slot that wins at time `now` among `upto` slots.
pub open spec fn spec_winner_index(now: i64, upto: int) -> int {
    clock_seed(now) % upto
}

/// Some candidate account carries `key`.
pub open spec fn has_candidate(accounts: Seq<AccountView>, key: Seq<u8>) -> bool {
    exists|j: int| 2 <= j < accounts.len() && (#[trigger] accounts[j]).key == key
}

/// `j` is the first candidate account that carries `key`.
pub open spec fn is_first_candidate(accounts: Seq<AccountView>, key: Seq<u8>, j: int) -> bool {
    &&& 2 <= j < accounts.len()
    &&& accounts[j].key == key
    &&& forall|i: int| 2 <= i < j ==> (#[trigger] accounts[i]).key != key
}

/// The first candidate account that carries `key`, where there is one.
pub open spec fn first_candidate(accounts: Seq<AccountView>, key: Seq<u8>) -> int {
    choose|j: int| is_first_candidate(accounts, key, j)
}

/// The pot of a full lottery in base units: one entry fee per slot.
pub open spec fn pot(entry_fees: u32) -> int {
    MAX_PARTICIPANT * entry_amount(entry_fees)
}

/// The initializer's cut of the pot: `percent` hundredths of it, rounded
/// down.
pub open spec fn commission_amount(pot: int, percent: u8) -> int {
    pot * percent / 100
}

/// The payout of a full lottery whose slot `index` has won.  The storage
/// account is emptied and cleared; the winner takes the pot less the
/// commission; the initializer takes the commission and whatever the storage
/// held beyond the pot.
pub open spec fn spec_settle(accounts: Seq<AccountView>, record: LotteryView, index: int) -> Result<
    Seq<AccountView>,
    AppError,
> {
    let winner = record.participants[index];
    if !has_candidate(accounts, winner) {
        Err(AppError::IncorrectProgramId)
    } else {
        let w = first_candidate(accounts, winner);
        let balance = accounts[1].lamports;
        let pot = pot(record.entry_fees);
        let fees = commission_amount(pot, record.initializers_commission);
        let winner_total = accounts[w].lamports + (pot - fees);
        let initializer_total = accounts[0].lamports + (balance - pot) + fees;
        if record.initializers_commission > 100 || balance < pot || winner_total > u64::MAX
            || initializer_total > u64::MAX {
            Err(AppError::ArithmeticOverflow)
        } else {
            Ok(
                accounts.update(
                    1,
                    AccountView { lamports: 0, data: Seq::empty(), ..accounts[1] },
                ).update(w, AccountView { lamports: winner_total as u64, ..accounts[w] }).update(
                    0,
                    AccountView { lamports: initializer_total as u64, ..accounts[0] },
                ),
            )
        }
    }
}

/// `PickWinner` at time `now`.
pub open spec fn spec_pick_winner(program_id: Seq<u8>, accounts: Seq<AccountView>, now: i64) -> Result<
    Seq<AccountView>,
    AppError,
> {
    match spec_authorize(program_id, accounts) {
        Err(e) => Err(e),
        Ok(record) => spec_settle(
            accounts,
            record,
            spec_winner_index(now, MAX_PARTICIPANT as int),
        ),
    }
}

/// What an instruction does to the accounts when the clock reads `now`.
pub open spec fn spec_process(
    program_id: Seq<u8>,
    accounts: Seq<AccountView>,
    instruction_data: Seq<u8>,
    now: i64,
) -> Result<Seq<AccountView>, AppError> {
    match spec_unpack_instruction(instruction_data) {
        None => Err(AppError::InvalidInstruction),
        Some(AppInstruction::Init { entry_fees, initializers_commission }) => spec_init(
            program_id,
            accounts,
            entry_fees,
            initializers_commission,
        ),
        Some(AppInstruction::Participate) => spec_participate(program_id, accounts),
        Some(AppInstruction::PickWinner) => spec_pick_winner(program_id, accounts, now),
    }
}

/// The instruction is a resolution that has passed its checks, so the next
/// thing it needs is the clock.
pub open spec fn awaits_clock(
    program_id: Seq<u8>,
    accounts: Seq<AccountView>,
    instruction_data: Seq<u8>,
) -> bool {
    spec_unpack_instruction(instruction_data) == Some(AppInstruction::PickWinner)
        && spec_authorize(program_id, accounts) is Ok
}

/// Reads the state of a lottery off the data of its storage account.
pub fn lottery_state(data: &[u8]) -> (state: LotteryState)
    ensures
        state == storage_state(data@),
{
    match Lottery::unpack(data) {
        Err(_) => LotteryState::Absent,
        Ok(record) => if record.is_full() {
            LotteryState::Full
        } else {
            LotteryState::Open
        },
    }
}

/// A candidate account that carries `key` has a first one.
pub proof fn lemma_first_candidate(accounts: Seq<AccountView>, key: Seq<u8>, j: int)
    requires
        is_first_candidate(accounts, key, j),
    ensures
        has_candidate(accounts, key),
        first_candidate(accounts, key) == j,
{
    let c = first_candidate(accounts, key);
    assert(is_first_candidate(accounts, key, c));
    if c < j {
        assert(accounts[c].key != key);
    } else if j < c {
        assert(accounts[j].key != key);
    }
}

/// The slot that wins at time `now` among `upto` slots: the timestamp, read
/// as an unsigned number, modulo `upto`.  The choice is as predictable as
/// the clock is.
pub fn winner_index(now: i64, upto: u8) -> (index: usize)
    requires
        upto > 0,
    ensures
        index == spec_winner_index(now, upto as int),
        index < upto,
{
    let seed: u64 = if now >= 0 {
        now as u64
    } else {
        ((now + i64::MAX) + 1) as u64 + 0x8000_0000_0000_0000
    };
    (seed % (upto as u64)) as usize
}

/// Draws a slot among `upto` from the current time.
fn rand(upto: u8) -> (result: Result<usize, AppError>)
    requires
        upto > 0,
    ensures
        match result {
            Ok(index) => index < upto,
            Err(e) => e == AppError::UnsupportedSysvar,
        },
{
    slot_from_clock(clock_unix_timestamp(), upto)
}

/// What a draw among `upto` slots comes to, given what reading the clock
/// gave: the slot that wins at the time read, or `UnsupportedSysvar` where
/// the read failed.
pub fn slot_from_clock(
    clock: Result<i64, solana_program::program_error::ProgramError>,
    upto: u8,
) -> (result: Result<usize, AppError>)
    requires
        upto > 0,
    ensures
        match clock {
            Ok(now) => result == Ok::<usize, AppError>(
                spec_winner_index(now, upto as int) as usize,
            ) && spec_winner_index(now, upto as int) < upto,
            Err(_) => result == Err::<usize, AppError>(AppError::UnsupportedSysvar),
        },
{
    match clock {
        Ok(now) => Ok(winner_index(now, upto)),
        Err(_) => Err(AppError::UnsupportedSysvar),
    }
}

/// What a call did, against what it should have done: on success the
/// accounts are the expected ones, on failure the expected error comes back
/// and the accounts are as before.
pub open spec fn outcome_is(
    before: Seq<AccountView>,
    after: Seq<AccountView>,
    result: Result<(), AppError>,
    expected: Result<Seq<AccountView>, AppError>,
) -> bool {
    match expected {
        Ok(next) => result is Ok && after == next,
        Err(e) => result == Err::<(), AppError>(e) && after == before,
    }
}

/// The instruction processor.  It keeps no state of its own: everything an
/// instruction reads or changes is in the accounts it is handed.
pub struct Processor {}

impl Processor {
    /// Runs the opening checks of an instruction and decodes the record.
    fn load_record(
        program_id: &[u8; 32],
        accounts: &Vec<Account>,
        required: usize,
        unsigned: AppError,
    ) -> (result: Result<Lottery, AppError>)
        requires
            required >= 2,
        ensures
            match spec_load_record(program_id@, accounts_view(accounts@), required as int, unsigned) {
                Ok(record) => result is Ok && result->Ok_0@ == record,
                Err(e) => result == Err::<Lottery, AppError>(e),
            },
    {
        if accounts.len() < required {
            return Err(AppError::NotEnoughAccountKeys);
        }
        if !keys_equal(&accounts[1].owner, program_id) {
            return Err(AppError::IncorrectProgramId);
        }
        if !accounts[0].is_signer {
            return Err(unsigned);
        }
        Lottery::unpack(accounts[1].data.as_slice())
    }

    /// Starts a lottery: the storage account takes a record with the given
    /// fee and commission, the first account as initializer and no entries.
    pub fn init(
        program_id: &[u8; 32],
        accounts: &mut Vec<Account>,
        entry_fees: u32,
        initializers_commission: u8,
    ) -> (result: Result<(), AppError>)
        ensures
            outcome_is(
                accounts_view(old(accounts)@),
                accounts_view(final(accounts)@),
                result,
                spec_init(
                    program_id@,
                    accounts_view(old(accounts)@),
                    entry_fees,
                    initializers_commission,
                ),
            ),
    {
        let mut record = Self::load_record(program_id, accounts, 2, AppError::InvalidInstruction)?;
        record.entry_fees = entry_fees;
        record.initializers_commission = initializers_commission;
        record.initializer = accounts[0].key;
        record.participants = [[0u8; 32]; MAX_PARTICIPANT];
        record.pack_into_slice(accounts[1].data.as_mut_slice());
        proof {
            let before = accounts_view(old(accounts)@);
            let fresh = fresh_record(entry_fees, initializers_commission, before[0].key);
            assert(record@.participants =~= fresh.participants) by {
                assert forall|k: int| 0 <= k < MAX_PARTICIPANT implies record.participants[k]@
                    == empty_key() by {
                    assert(record.participants[k]@ =~= empty_key());
                }
            }
            assert(record@ == fresh);
            assert(accounts@[1].data@ =~= spec_pack(fresh));
            assert(accounts_view(accounts@) =~= before.update(
                1,
                AccountView { data: spec_pack(fresh), ..before[1] },
            ));
        }
        Ok(())
    }

    /// Enters the first account into the lottery: it takes the leftmost
    /// empty slot and the entry fee moves from it to the storage account.
    pub fn participate(program_id: &[u8; 32], accounts: &mut Vec<Account>) -> (result: Result<
        (),
        AppError,
    >)
        ensures
            outcome_is(
                accounts_view(old(accounts)@),
                accounts_view(final(accounts)@),
                result,
                spec_participate(program_id@, accounts_view(old(accounts)@)),
            ),
    {
        let mut record = Self::load_record(program_id, accounts, 3, AppError::InvalidInstruction)?;
        let key: [u8; 32] = accounts[0].key;
        let mut free: usize = MAX_PARTICIPANT;
        let mut k: usize = 0;
        while k < MAX_PARTICIPANT
            invariant
                k <= MAX_PARTICIPANT,
                free <= MAX_PARTICIPANT,
                accounts@ == old(accounts)@,
                key@ == accounts_view(accounts@)[0].key,
                spec_load_record(
                    program_id@,
                    accounts_view(accounts@),
                    3,
                    AppError::InvalidInstruction,
                ) == Ok::<LotteryView, AppError>(record@),
                free == MAX_PARTICIPANT ==> forall|j: int|
                    0 <= j < k ==> !is_empty_slot(#[trigger] record@.participants[j]),
                free < MAX_PARTICIPANT ==> free < k && record@.is_first_empty(free as int),
                forall|j: int|
                    0 <= j < k && !is_empty_slot(#[trigger] record@.participants[j])
                        ==> record@.participants[j] != key@,
            decreases MAX_PARTICIPANT - k,
        {
            if is_empty_key(&record.participants[k]) {
                if free == MAX_PARTICIPANT {
                    free = k;
                }
            } else if keys_equal(&record.participants[k], &key) {
                assert(!is_empty_slot(record@.participants[k as int]));
                assert(record@.has_entry(key@));
                return Err(AppError::DuplicateEntry);
            }
            k = k + 1;
        }
        if free == MAX_PARTICIPANT {
            return Err(AppError::NoRoom);
        }
        proof {
            record@.lemma_first_empty(free as int);
        }
        let amount: u64 = (record.entry_fees as u64) * lamports_per_sol();
        if accounts[0].lamports < amount {
            return Err(AppError::LowBalance);
        }
        if amount > u64::MAX - accounts[1].lamports {
            return Err(AppError::ArithmeticOverflow);
        }
        let ghost entered = record@.with_entry(free as int, key@);
        record.participants[free] = key;
        assert(record@.participants =~= entered.participants);
        accounts[0].lamports = accounts[0].lamports - amount;
        accounts[1].lamports = accounts[1].lamports + amount;
        record.pack_into_slice(accounts[1].data.as_mut_slice());
        proof {
            let before = accounts_view(old(accounts)@);
            assert(accounts@[1].data@ =~= spec_pack(entered));
            assert(accounts_view(accounts@) =~= spec_participate(program_id@, before)->Ok_0);
        }
        Ok(())
    }

    /// Runs the checks that come before a resolution.
    fn authorize(program_id: &[u8; 32], accounts: &Vec<Account>) -> (result: Result<
        Lottery,
        AppError,
    >)
        ensures
            match spec_authorize(program_id@, accounts_view(accounts@)) {
                Ok(record) => result is Ok && result->Ok_0@ == record,
                Err(e) => result == Err::<Lottery, AppError>(e),
            },
    {
        let record = Self::load_record(program_id, accounts, 2, AppError::MustSigner)?;
        if !keys_equal(&accounts[0].key, &record.initializer) {
            return Err(AppError::Unauthorized);
        }
        if !record.is_full() {
            return Err(AppError::EmptyRoom);
        }
        Ok(record)
    }

    /// Pays out a full lottery whose slot `index` has won, and clears the
    /// storage.
    fn settle(accounts: &mut Vec<Account>, record: &Lottery, index: usize) -> (result: Result<
        (),
        AppError,
    >)
        requires
            old(accounts)@.len() >= 2,
            index < MAX_PARTICIPANT,
        ensures
            outcome_is(
                accounts_view(old(accounts)@),
                accounts_view(final(accounts)@),
                result,
                spec_settle(accounts_view(old(accounts)@), record@, index as int),
            ),
    {
        let ghost before = accounts_view(accounts@);
        let winner: [u8; 32] = record.participants[index];
        assert(winner@ == record@.participants[index as int]);
        let mut w: usize = 2;
        while w < accounts.len() && !keys_equal(&accounts[w].key, &winner)
            invariant
                2 <= w <= accounts@.len(),
                accounts@ == old(accounts)@,
                before == accounts_view(accounts@),
                forall|i: int| 2 <= i < w ==> (#[trigger] before[i]).key != winner@,
            decreases accounts@.len() - w,
        {
            w = w + 1;
        }
        if w >= accounts.len() {
            assert(!has_candidate(before, winner@));
            return Err(AppError::IncorrectProgramId);
        }
        proof {
            assert(before[w as int].key == winner@);
            lemma_first_candidate(before, winner@, w as int);
        }
        if record.initializers_commission > 100 {
            return Err(AppError::ArithmeticOverflow);
        }
        let balance: u64 = accounts[1].lamports;
        let pot: u64 = (MAX_PARTICIPANT as u64) * ((record.entry_fees as u64) * lamports_per_sol());
        if balance < pot {
            return Err(AppError::ArithmeticOverflow);
        }
        let percent: u128 = record.initializers_commission as u128;
        assert(pot as u128 * percent <= pot as u128 * 100) by (nonlinear_arith)
            requires
                percent <= 100,
        ;
        let fees: u64 = ((pot as u128) * percent / 100) as u64;
        assert(fees == commission_amount(pot as int, record.initializers_commission));
        let winner_amount: u64 = pot - fees;
        let initializer_amount: u64 = (balance - pot) + fees;
        if winner_amount > u64::MAX - accounts[w].lamports {
            return Err(AppError::ArithmeticOverflow);
        }
        if initializer_amount > u64::MAX - accounts[0].lamports {
            return Err(AppError::ArithmeticOverflow);
        }
        accounts[1].lamports = 0;
        accounts[1].data = Vec::new();
        accounts[w].lamports = accounts[w].lamports + winner_amount;
        accounts[0].lamports = accounts[0].lamports + initializer_amount;
        proof {
            assert(accounts_view(accounts@) =~= spec_settle(before, record@, index as int)->Ok_0);
        }
        Ok(())
    }

    /// Resolves a full lottery as of time `now`: slot `now mod
    /// MAX_PARTICIPANT` wins, and the pot is split between its holder and
    /// the initializer.
    pub fn pick_winner(program_id: &[u8; 32], accounts: &mut Vec<Account>, now: i64) -> (result:
        Result<(), AppError>)
        ensures
            outcome_is(
                accounts_view(old(accounts)@),
                accounts_view(final(accounts)@),
                result,
                spec_pick_winner(program_id@, accounts_view(old(accounts)@), now),
            ),
    {
        let record = Self::authorize(program_id, accounts)?;
        let index: usize = winner_index(now, MAX_PARTICIPANT as u8);
        Self::settle(accounts, &record, index)
    }

    /// Carries out one instruction as of time `now`.
    pub fn process_at(
        program_id: &[u8; 32],
        accounts: &mut Vec<Account>,
        instruction_data: &[u8],
        now: i64,
    ) -> (result: Result<(), AppError>)
        ensures
            outcome_is(
                accounts_view(old(accounts)@),
                accounts_view(final(accounts)@),
                result,
                spec_process(program_id@, accounts_view(old(accounts)@), instruction_data@, now),
            ),
    {
        let instruction = AppInstruction::unpack(instruction_data)?;
        match instruction {
            AppInstruction::Init { entry_fees, initializers_commission } => Self::init(
                program_id,
                accounts,
                entry_fees,
                initializers_commission,
            ),
            AppInstruction::Participate => Self::participate(program_id, accounts),
            AppInstruction::PickWinner => Self::pick_winner(program_id, accounts, now),
        }
    }

    /// Carries out one instruction.  A resolution that has passed its checks
    /// reads the clock to draw the winner; if the clock cannot be read the
    /// call fails with `UnsupportedSysvar`.  In every other respect the call
    /// does what [`Processor::process_at`] does at the time the clock gave.
    pub fn process(program_id: &[u8; 32], accounts: &mut Vec<Account>, instruction_data: &[u8]) -> (result:
        Result<(), AppError>)
        ensures
            ({
                let before = accounts_view(old(accounts)@);
                let after = accounts_view(final(accounts)@);
                ||| exists|now: i64|
                    outcome_is(
                        before,
                        after,
                        result,
                        #[trigger] spec_process(program_id@, before, instruction_data@, now),
                    )
                ||| awaits_clock(program_id@, before, instruction_data@) && result == Err::<
                    (),
                    AppError,
                >(AppError::UnsupportedSysvar) && after == before
            }),
    {
        let ghost before = accounts_view(accounts@);
        let instruction = AppInstruction::unpack(instruction_data)?;
        match instruction {
            AppInstruction::Init { entry_fees, initializers_commission } => {
                let result = Self::init(program_id, accounts, entry_fees, initializers_commission);
                assert(outcome_is(
                    before,
                    accounts_view(accounts@),
                    result,
                    spec_process(program_id@, before, instruction_data@, 0),
                ));
                result
            },
            AppInstruction::Participate => {
                let result = Self::participate(program_id, accounts);
                assert(outcome_is(
                    before,
                    accounts_view(accounts@),
                    result,
                    spec_process(program_id@, before, instruction_data@, 0),
                ));
                result
            },
            AppInstruction::PickWinner => {
                let record = Self::authorize(program_id, accounts)?;
                let index: usize = rand(MAX_PARTICIPANT as u8)?;
                let result = Self::settle(accounts, &record, index);
                assert(outcome_is(
                    before,
                    accounts_view(accounts@),
                    result,
                    spec_process(program_id@, before, instruction_data@, index as i64),
                ));
                result
            },
        }
    }
}

} // verus!
