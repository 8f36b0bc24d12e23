use lottery::account::Account;
use lottery::error::AppError;
use lottery::processor::{lottery_state, slot_from_clock, winner_index, LotteryState, Processor};
use lottery::schema::lottery::Lottery;
use solana_program::program_error::ProgramError;

const PROGRAM: [u8; 32] = [42; 32];
const WALLET_OWNER: [u8; 32] = [0; 32];
const ORGANIZER: [u8; 32] = [1; 32];
const STORAGE: [u8; 32] = [2; 32];
const ALICE: [u8; 32] = [3; 32];
const BOB: [u8; 32] = [4; 32];
const CAROL: [u8; 32] = [5; 32];
const TRANSFER_FACILITY: [u8; 32] = [6; 32];
const SOL: u64 = 1_000_000_000;
const RENT: u64 = 1_593_840;

fn wallet(key: [u8; 32], is_signer: bool, lamports: u64) -> Account {
    Account {
        key,
        owner: WALLET_OWNER,
        is_signer,
        lamports,
        data: Vec::new(),
    }
}

fn storage(lamports: u64, data: Vec<u8>) -> Account {
    Account {
        key: STORAGE,
        owner: PROGRAM,
        is_signer: false,
        lamports,
        data,
    }
}

fn packed(record: Lottery) -> Vec<u8> {
    let mut bytes = vec![0u8; Lottery::LEN];
    record.pack_into_slice(&mut bytes);
    bytes
}

fn record_in(account: &Account) -> Lottery {
    Lottery::unpack(&account.data).unwrap()
}

fn lottery(entry_fees: u32, commission: u8, participants: [[u8; 32]; 2]) -> Lottery {
    Lottery {
        entry_fees,
        initializers_commission: commission,
        initializer: ORGANIZER,
        participants,
    }
}

fn entry_accounts(who: [u8; 32], lamports: u64, record: Lottery, pot: u64) -> Vec<Account> {
    vec![
        wallet(who, true, lamports),
        storage(pot, packed(record)),
        wallet(TRANSFER_FACILITY, false, 1),
    ]
}

fn resolution_accounts(record: Lottery, pot: u64) -> Vec<Account> {
    vec![
        wallet(ORGANIZER, true, 5 * SOL),
        storage(pot, packed(record)),
        wallet(ALICE, false, 9 * SOL),
        wallet(BOB, false, 9 * SOL),
    ]
}

fn total(accounts: &[Account]) -> u128 {
    accounts.iter().map(|a| a.lamports as u128).sum()
}

#[test]
fn init_writes_a_fresh_record() {
    let stale = lottery(9, 9, [ALICE, BOB]);
    let mut accounts = vec![
        wallet(ORGANIZER, true, 5 * SOL),
        storage(RENT, packed(stale)),
    ];
    let before = accounts.clone();
    assert_eq!(Processor::init(&PROGRAM, &mut accounts, 1, 50), Ok(()));
    assert_eq!(
        record_in(&accounts[1]),
        Lottery {
            entry_fees: 1,
            initializers_commission: 50,
            initializer: ORGANIZER,
            participants: [[0; 32]; 2],
        }
    );
    assert_eq!(accounts[0], before[0]);
    assert_eq!(accounts[1].lamports, RENT);
    assert_eq!(accounts[1].key, STORAGE);
    assert_eq!(accounts[1].owner, PROGRAM);
}

#[test]
fn init_on_zeroed_storage() {
    let mut accounts = vec![
        wallet(ORGANIZER, true, 0),
        storage(RENT, vec![0u8; Lottery::LEN]),
    ];
    assert_eq!(
        Processor::process(&PROGRAM, &mut accounts, &[0, 7, 0, 0, 0, 255]),
        Ok(())
    );
    let record = record_in(&accounts[1]);
    assert_eq!(record.entry_fees, 7);
    assert_eq!(record.initializers_commission, 255);
    assert_eq!(record.initializer, ORGANIZER);
    assert_eq!(record.participants, [[0; 32]; 2]);
}

#[test]
fn init_needs_two_accounts() {
    let mut accounts = vec![wallet(ORGANIZER, true, 0)];
    let before = accounts.clone();
    assert_eq!(
        Processor::init(&PROGRAM, &mut accounts, 1, 1),
        Err(AppError::NotEnoughAccountKeys)
    );
    assert_eq!(accounts, before);
    let mut none: Vec<Account> = Vec::new();
    assert_eq!(
        Processor::init(&PROGRAM, &mut none, 1, 1),
        Err(AppError::NotEnoughAccountKeys)
    );
}

#[test]
fn init_needs_storage_owned_by_the_program() {
    let mut accounts = vec![
        wallet(ORGANIZER, true, 0),
        storage(RENT, vec![0u8; Lottery::LEN]),
    ];
    accounts[1].owner = [43; 32];
    let before = accounts.clone();
    assert_eq!(
        Processor::init(&PROGRAM, &mut accounts, 1, 1),
        Err(AppError::IncorrectProgramId)
    );
    assert_eq!(accounts, before);
}

#[test]
fn init_needs_a_signer() {
    let mut accounts = vec![
        wallet(ORGANIZER, false, 0),
        storage(RENT, vec![0u8; Lottery::LEN]),
    ];
    let before = accounts.clone();
    assert_eq!(
        Processor::init(&PROGRAM, &mut accounts, 1, 1),
        Err(AppError::InvalidInstruction)
    );
    assert_eq!(accounts, before);
}

#[test]
fn init_checks_the_owner_before_the_signer() {
    let mut accounts = vec![
        wallet(ORGANIZER, false, 0),
        storage(RENT, vec![0u8; Lottery::LEN]),
    ];
    accounts[1].owner = ORGANIZER;
    assert_eq!(
        Processor::init(&PROGRAM, &mut accounts, 1, 1),
        Err(AppError::IncorrectProgramId)
    );
}

#[test]
fn init_needs_storage_of_record_length() {
    for len in [0usize, 1, 100, 102] {
        let mut accounts = vec![wallet(ORGANIZER, true, 0), storage(RENT, vec![0u8; len])];
        let before = accounts.clone();
        assert_eq!(
            Processor::init(&PROGRAM, &mut accounts, 1, 1),
            Err(AppError::InvalidAccountData)
        );
        assert_eq!(accounts, before);
    }
}

#[test]
fn participate_takes_the_first_slot_and_pays() {
    let mut accounts = entry_accounts(ALICE, 3 * SOL, lottery(1, 50, [[0; 32]; 2]), RENT);
    assert_eq!(Processor::participate(&PROGRAM, &mut accounts), Ok(()));
    assert_eq!(record_in(&accounts[1]), lottery(1, 50, [ALICE, [0; 32]]));
    assert_eq!(accounts[0].lamports, 2 * SOL);
    assert_eq!(accounts[1].lamports, RENT + SOL);
    assert_eq!(accounts[2], wallet(TRANSFER_FACILITY, false, 1));
}

#[test]
fn participate_takes_the_second_slot() {
    let mut accounts = entry_accounts(BOB, 2 * SOL, lottery(2, 50, [ALICE, [0; 32]]), RENT);
    assert_eq!(
        Processor::process(&PROGRAM, &mut accounts, &[1]),
        Ok(())
    );
    assert_eq!(record_in(&accounts[1]), lottery(2, 50, [ALICE, BOB]));
    assert_eq!(accounts[0].lamports, 0);
    assert_eq!(accounts[1].lamports, RENT + 2 * SOL);
}

#[test]
fn participate_moves_one_unit_of_currency_per_unit_of_fee() {
    let mut accounts = entry_accounts(ALICE, 10 * SOL, lottery(3, 0, [[0; 32]; 2]), 0);
    assert_eq!(Processor::participate(&PROGRAM, &mut accounts), Ok(()));
    let moved = 10 * SOL - accounts[0].lamports;
    assert_eq!(moved, 3 * solana_program::native_token::LAMPORTS_PER_SOL);
    assert_eq!(moved, 3_000_000_000);
    assert_eq!(accounts[1].lamports, moved);
}

#[test]
fn participate_twice_is_a_duplicate() {
    let mut accounts = entry_accounts(ALICE, 3 * SOL, lottery(1, 50, [[0; 32]; 2]), RENT);
    assert_eq!(Processor::participate(&PROGRAM, &mut accounts), Ok(()));
    let before = accounts.clone();
    assert_eq!(
        Processor::participate(&PROGRAM, &mut accounts),
        Err(AppError::DuplicateEntry)
    );
    assert_eq!(accounts, before);
    assert_eq!(
        Processor::process(&PROGRAM, &mut accounts, &[1]),
        Err(AppError::DuplicateEntry)
    );
    assert_eq!(accounts, before);
}

#[test]
fn participate_in_second_slot_is_a_duplicate_too() {
    let mut accounts = entry_accounts(BOB, 3 * SOL, lottery(1, 50, [ALICE, BOB]), RENT);
    let before = accounts.clone();
    assert_eq!(
        Processor::participate(&PROGRAM, &mut accounts),
        Err(AppError::DuplicateEntry)
    );
    assert_eq!(accounts, before);
}

#[test]
fn participate_in_a_full_lottery_finds_no_room() {
    let mut accounts = entry_accounts(CAROL, 3 * SOL, lottery(1, 50, [ALICE, BOB]), RENT);
    let before = accounts.clone();
    assert_eq!(
        Processor::participate(&PROGRAM, &mut accounts),
        Err(AppError::NoRoom)
    );
    assert_eq!(accounts, before);
}

#[test]
fn participate_in_a_full_lottery_without_funds_finds_no_room() {
    let mut accounts = entry_accounts(CAROL, 0, lottery(1, 50, [ALICE, BOB]), RENT);
    assert_eq!(
        Processor::participate(&PROGRAM, &mut accounts),
        Err(AppError::NoRoom)
    );
}

#[test]
fn participate_needs_the_entry_fee() {
    let mut accounts = entry_accounts(ALICE, SOL - 1, lottery(1, 50, [[0; 32]; 2]), RENT);
    let before = accounts.clone();
    assert_eq!(
        Processor::participate(&PROGRAM, &mut accounts),
        Err(AppError::LowBalance)
    );
    assert_eq!(accounts, before);
    accounts[0].lamports = SOL;
    assert_eq!(Processor::participate(&PROGRAM, &mut accounts), Ok(()));
    assert_eq!(accounts[0].lamports, 0);
}

#[test]
fn participate_with_the_largest_fee() {
    let fee = u32::MAX;
    let amount = fee as u64 * SOL;
    let mut accounts = entry_accounts(ALICE, amount, lottery(fee, 0, [[0; 32]; 2]), 0);
    assert_eq!(Processor::participate(&PROGRAM, &mut accounts), Ok(()));
    assert_eq!(accounts[0].lamports, 0);
    assert_eq!(accounts[1].lamports, 4_294_967_295_000_000_000);
}

#[test]
fn participate_refuses_a_storage_balance_that_would_overflow() {
    let mut accounts = entry_accounts(ALICE, 3 * SOL, lottery(1, 50, [[0; 32]; 2]), u64::MAX - SOL + 1);
    let before = accounts.clone();
    assert_eq!(
        Processor::participate(&PROGRAM, &mut accounts),
        Err(AppError::ArithmeticOverflow)
    );
    assert_eq!(accounts, before);
    accounts[1].lamports = u64::MAX - SOL;
    assert_eq!(Processor::participate(&PROGRAM, &mut accounts), Ok(()));
    assert_eq!(accounts[1].lamports, u64::MAX);
}

#[test]
fn participate_needs_three_accounts() {
    let mut accounts = entry_accounts(ALICE, 3 * SOL, lottery(1, 50, [[0; 32]; 2]), RENT);
    accounts.pop();
    let before = accounts.clone();
    assert_eq!(
        Processor::participate(&PROGRAM, &mut accounts),
        Err(AppError::NotEnoughAccountKeys)
    );
    assert_eq!(accounts, before);
}

#[test]
fn participate_needs_owner_signer_and_record() {
    let mut accounts = entry_accounts(ALICE, 3 * SOL, lottery(1, 50, [[0; 32]; 2]), RENT);
    accounts[1].owner = ALICE;
    assert_eq!(
        Processor::participate(&PROGRAM, &mut accounts),
        Err(AppError::IncorrectProgramId)
    );

    let mut accounts = entry_accounts(ALICE, 3 * SOL, lottery(1, 50, [[0; 32]; 2]), RENT);
    accounts[0].is_signer = false;
    assert_eq!(
        Processor::participate(&PROGRAM, &mut accounts),
        Err(AppError::InvalidInstruction)
    );

    let mut accounts = entry_accounts(ALICE, 3 * SOL, lottery(1, 50, [[0; 32]; 2]), RENT);
    accounts[1].data.pop();
    assert_eq!(
        Processor::participate(&PROGRAM, &mut accounts),
        Err(AppError::InvalidAccountData)
    );
}

#[test]
fn winner_index_is_the_time_modulo_the_slots() {
    assert_eq!(winner_index(0, 2), 0);
    assert_eq!(winner_index(7, 2), 1);
    assert_eq!(winner_index(1_700_000_000, 2), 0);
    assert_eq!(winner_index(1_700_000_001, 2), 1);
    assert_eq!(winner_index(10, 3), 1);
    assert_eq!(winner_index(i64::MAX, 255), (i64::MAX as u64 % 255) as usize);
    assert_eq!(winner_index(5, 1), 0);
}

#[test]
fn winner_index_reads_negative_times_as_unsigned() {
    assert_eq!(winner_index(-1, 2), 1);
    assert_eq!(winner_index(-2, 2), 0);
    assert_eq!(winner_index(-1, 7), (u64::MAX % 7) as usize);
    assert_eq!(winner_index(i64::MIN, 3), ((1u64 << 63) % 3) as usize);
    for now in [-5i64, -4, -3, i64::MIN, i64::MIN + 1] {
        for upto in [1u8, 2, 3, 200, 255] {
            assert_eq!(
                winner_index(now, upto),
                ((now as u64) % (upto as u64)) as usize
            );
        }
    }
}

#[test]
fn slot_from_clock_draws_at_the_time_read() {
    assert_eq!(slot_from_clock(Ok(1_700_000_000), 2), Ok(0));
    assert_eq!(slot_from_clock(Ok(1_700_000_001), 2), Ok(1));
    assert_eq!(slot_from_clock(Ok(-1), 2), Ok(1));
    assert_eq!(slot_from_clock(Ok(10), 3), Ok(1));
    assert_eq!(slot_from_clock(Ok(5), 1), Ok(0));
}

#[test]
fn slot_from_clock_fails_where_the_clock_failed() {
    for error in [
        ProgramError::UnsupportedSysvar,
        ProgramError::InvalidArgument,
        ProgramError::Custom(7),
    ] {
        assert_eq!(
            slot_from_clock(Err(error), 2),
            Err(AppError::UnsupportedSysvar)
        );
    }
}

#[test]
fn winner_index_stays_in_range() {
    for now in -50i64..50 {
        for upto in 1u8..10 {
            assert!(winner_index(now, upto) < upto as usize);
        }
    }
}

#[test]
fn pick_winner_splits_the_pot() {
    // fee 1, two entries, 10% commission: pot 2, commission 0.2, winner 1.8
    let balance = 2 * SOL + RENT;
    let mut accounts = resolution_accounts(lottery(1, 10, [ALICE, BOB]), balance);
    let before = accounts.clone();
    assert_eq!(Processor::pick_winner(&PROGRAM, &mut accounts, 100), Ok(()));
    let pot = 2 * SOL;
    let commission = 200_000_000;
    let winner_amount = 1_800_000_000;
    let remainder = RENT;
    assert_eq!(commission, pot * 10 / 100);
    assert_eq!(winner_amount, pot - commission);
    assert_eq!(winner_amount + commission + remainder, balance);
    assert_eq!(accounts[2].lamports, before[2].lamports + winner_amount);
    assert_eq!(accounts[3].lamports, before[3].lamports);
    assert_eq!(
        accounts[0].lamports,
        before[0].lamports + remainder + commission
    );
    assert_eq!(accounts[1].lamports, 0);
    assert!(accounts[1].data.is_empty());
    assert_eq!(total(&accounts), total(&before));
}

#[test]
fn pick_winner_follows_the_clock() {
    let mut even = resolution_accounts(lottery(1, 0, [ALICE, BOB]), 2 * SOL);
    assert_eq!(Processor::pick_winner(&PROGRAM, &mut even, 1_700_000_000), Ok(()));
    assert_eq!(even[2].lamports, 11 * SOL);
    assert_eq!(even[3].lamports, 9 * SOL);

    let mut odd = resolution_accounts(lottery(1, 0, [ALICE, BOB]), 2 * SOL);
    assert_eq!(Processor::pick_winner(&PROGRAM, &mut odd, 1_700_000_001), Ok(()));
    assert_eq!(odd[2].lamports, 9 * SOL);
    assert_eq!(odd[3].lamports, 11 * SOL);
}

#[test]
fn pick_winner_with_full_commission_pays_the_initializer() {
    let mut accounts = resolution_accounts(lottery(1, 100, [ALICE, BOB]), 2 * SOL + 7);
    assert_eq!(Processor::pick_winner(&PROGRAM, &mut accounts, 0), Ok(()));
    assert_eq!(accounts[0].lamports, 5 * SOL + 2 * SOL + 7);
    assert_eq!(accounts[2].lamports, 9 * SOL);
    assert_eq!(accounts[1].lamports, 0);
}

#[test]
fn pick_winner_rounds_the_commission_down() {
    // pot 2 * 3 = 6 units; 33% of 6_000_000_000 is 1_980_000_000
    let mut accounts = resolution_accounts(lottery(3, 33, [ALICE, BOB]), 6 * SOL);
    assert_eq!(Processor::pick_winner(&PROGRAM, &mut accounts, 1), Ok(()));
    assert_eq!(accounts[3].lamports, 9 * SOL + 4_020_000_000);
    assert_eq!(accounts[0].lamports, 5 * SOL + 1_980_000_000);
}

#[test]
fn pick_winner_with_the_largest_fee() {
    let pot = 2 * (u32::MAX as u64) * SOL;
    let mut accounts = resolution_accounts(lottery(u32::MAX, 50, [ALICE, BOB]), pot);
    accounts[0].lamports = 0;
    accounts[2].lamports = 0;
    assert_eq!(Processor::pick_winner(&PROGRAM, &mut accounts, 0), Ok(()));
    assert_eq!(accounts[2].lamports, 4_294_967_295_000_000_000);
    assert_eq!(accounts[0].lamports, 4_294_967_295_000_000_000);
    assert_eq!(accounts[1].lamports, 0);
}

#[test]
fn pick_winner_takes_the_first_matching_candidate() {
    let mut accounts = resolution_accounts(lottery(1, 0, [ALICE, BOB]), 2 * SOL);
    accounts.insert(2, wallet(CAROL, false, 1));
    accounts.push(wallet(ALICE, false, 0));
    assert_eq!(Processor::pick_winner(&PROGRAM, &mut accounts, 0), Ok(()));
    assert_eq!(accounts[2].lamports, 1);
    assert_eq!(accounts[3].lamports, 11 * SOL);
    assert_eq!(accounts[5].lamports, 0);
}

#[test]
fn pick_winner_does_not_look_for_the_winner_among_the_first_two_accounts() {
    let record = Lottery {
        entry_fees: 1,
        initializers_commission: 0,
        initializer: ORGANIZER,
        participants: [ORGANIZER, STORAGE],
    };
    let mut accounts = vec![
        wallet(ORGANIZER, true, 0),
        storage(2 * SOL, packed(record)),
        wallet(ALICE, false, 0),
    ];
    let before = accounts.clone();
    assert_eq!(
        Processor::pick_winner(&PROGRAM, &mut accounts, 0),
        Err(AppError::IncorrectProgramId)
    );
    assert_eq!(
        Processor::pick_winner(&PROGRAM, &mut accounts, 1),
        Err(AppError::IncorrectProgramId)
    );
    assert_eq!(accounts, before);
}

#[test]
fn pick_winner_needs_the_winner_among_the_candidates() {
    let mut accounts = resolution_accounts(lottery(1, 10, [ALICE, BOB]), 2 * SOL);
    accounts.pop();
    let before = accounts.clone();
    assert_eq!(
        Processor::pick_winner(&PROGRAM, &mut accounts, 1),
        Err(AppError::IncorrectProgramId)
    );
    assert_eq!(accounts, before);
    assert_eq!(Processor::pick_winner(&PROGRAM, &mut accounts, 0), Ok(()));
}

#[test]
fn pick_winner_by_a_stranger_is_unauthorized() {
    let mut accounts = resolution_accounts(lottery(1, 10, [ALICE, BOB]), 2 * SOL);
    accounts[0] = wallet(CAROL, true, 5 * SOL);
    let before = accounts.clone();
    assert_eq!(
        Processor::pick_winner(&PROGRAM, &mut accounts, 0),
        Err(AppError::Unauthorized)
    );
    assert_eq!(accounts, before);
    assert_eq!(
        Processor::process(&PROGRAM, &mut accounts, &[2]),
        Err(AppError::Unauthorized)
    );
    assert_eq!(accounts, before);
}

#[test]
fn pick_winner_by_a_stranger_is_unauthorized_even_when_not_full() {
    let mut accounts = resolution_accounts(lottery(1, 10, [ALICE, [0; 32]]), SOL);
    accounts[0] = wallet(CAROL, true, 5 * SOL);
    assert_eq!(
        Processor::pick_winner(&PROGRAM, &mut accounts, 0),
        Err(AppError::Unauthorized)
    );
}

#[test]
fn pick_winner_needs_every_slot_filled() {
    for participants in [[[0; 32]; 2], [ALICE, [0; 32]], [[0; 32], BOB]] {
        let mut accounts = resolution_accounts(lottery(1, 10, participants), 2 * SOL);
        let before = accounts.clone();
        for now in [0, 1] {
            assert_eq!(
                Processor::pick_winner(&PROGRAM, &mut accounts, now),
                Err(AppError::EmptyRoom)
            );
        }
        assert_eq!(
            Processor::process(&PROGRAM, &mut accounts, &[2]),
            Err(AppError::EmptyRoom)
        );
        assert_eq!(accounts, before);
    }
}

#[test]
fn pick_winner_needs_a_signature() {
    let mut accounts = resolution_accounts(lottery(1, 10, [ALICE, BOB]), 2 * SOL);
    accounts[0].is_signer = false;
    let before = accounts.clone();
    assert_eq!(
        Processor::pick_winner(&PROGRAM, &mut accounts, 0),
        Err(AppError::MustSigner)
    );
    assert_eq!(
        Processor::process(&PROGRAM, &mut accounts, &[2]),
        Err(AppError::MustSigner)
    );
    assert_eq!(accounts, before);
}

#[test]
fn pick_winner_needs_owner_accounts_and_record() {
    let mut accounts = resolution_accounts(lottery(1, 10, [ALICE, BOB]), 2 * SOL);
    accounts[1].owner = ORGANIZER;
    assert_eq!(
        Processor::pick_winner(&PROGRAM, &mut accounts, 0),
        Err(AppError::IncorrectProgramId)
    );

    let mut accounts = vec![wallet(ORGANIZER, true, 0)];
    assert_eq!(
        Processor::pick_winner(&PROGRAM, &mut accounts, 0),
        Err(AppError::NotEnoughAccountKeys)
    );

    let mut accounts = resolution_accounts(lottery(1, 10, [ALICE, BOB]), 2 * SOL);
    accounts[1].data.push(0);
    assert_eq!(
        Processor::pick_winner(&PROGRAM, &mut accounts, 0),
        Err(AppError::InvalidAccountData)
    );
}

#[test]
fn pick_winner_refuses_a_commission_over_the_pot() {
    let mut accounts = resolution_accounts(lottery(1, 101, [ALICE, BOB]), 2 * SOL);
    let before = accounts.clone();
    assert_eq!(
        Processor::pick_winner(&PROGRAM, &mut accounts, 0),
        Err(AppError::ArithmeticOverflow)
    );
    assert_eq!(accounts, before);
}

#[test]
fn pick_winner_refuses_a_storage_balance_under_the_pot() {
    let mut accounts = resolution_accounts(lottery(1, 10, [ALICE, BOB]), 2 * SOL - 1);
    let before = accounts.clone();
    assert_eq!(
        Processor::pick_winner(&PROGRAM, &mut accounts, 0),
        Err(AppError::ArithmeticOverflow)
    );
    assert_eq!(accounts, before);
}

#[test]
fn pick_winner_refuses_balances_that_would_overflow() {
    let mut accounts = resolution_accounts(lottery(1, 10, [ALICE, BOB]), 2 * SOL);
    accounts[2].lamports = u64::MAX - 1_800_000_000 + 1;
    let before = accounts.clone();
    assert_eq!(
        Processor::pick_winner(&PROGRAM, &mut accounts, 0),
        Err(AppError::ArithmeticOverflow)
    );
    assert_eq!(accounts, before);

    let mut accounts = resolution_accounts(lottery(1, 10, [ALICE, BOB]), 2 * SOL);
    accounts[0].lamports = u64::MAX - 200_000_000 + 1;
    let before = accounts.clone();
    assert_eq!(
        Processor::pick_winner(&PROGRAM, &mut accounts, 0),
        Err(AppError::ArithmeticOverflow)
    );
    assert_eq!(accounts, before);
}

#[test]
fn process_rejects_malformed_instructions() {
    let mut accounts = resolution_accounts(lottery(1, 10, [ALICE, BOB]), 2 * SOL);
    let before = accounts.clone();
    for data in [&[][..], &[3][..], &[0, 1, 0, 0, 0][..], &[9, 9, 9, 9, 9, 9][..]] {
        assert_eq!(
            Processor::process(&PROGRAM, &mut accounts, data),
            Err(AppError::InvalidInstruction)
        );
        assert_eq!(
            Processor::process_at(&PROGRAM, &mut accounts, data, 0),
            Err(AppError::InvalidInstruction)
        );
    }
    assert_eq!(accounts, before);
}

#[test]
fn process_resolution_without_a_clock_changes_nothing() {
    let mut accounts = resolution_accounts(lottery(1, 10, [ALICE, BOB]), 2 * SOL);
    let before = accounts.clone();
    assert_eq!(
        Processor::process(&PROGRAM, &mut accounts, &[2]),
        Err(AppError::UnsupportedSysvar)
    );
    assert_eq!(accounts, before);
}

#[test]
fn lottery_from_start_to_finish() {
    let mut accounts = vec![
        wallet(ORGANIZER, true, 5 * SOL),
        storage(RENT, vec![0u8; Lottery::LEN]),
    ];
    assert_eq!(
        Processor::process(&PROGRAM, &mut accounts, &[0, 1, 0, 0, 0, 50]),
        Ok(())
    );
    assert_eq!(lottery_state(&accounts[1].data), LotteryState::Open);
    let organizer = accounts[0].clone();
    let mut vault = accounts[1].clone();

    let mut entry = vec![
        wallet(ALICE, true, 3 * SOL),
        vault,
        wallet(TRANSFER_FACILITY, false, 1),
    ];
    assert_eq!(Processor::process(&PROGRAM, &mut entry, &[1]), Ok(()));
    let alice = entry[0].clone();
    assert_eq!(alice.lamports, 3 * SOL - SOL);
    assert_eq!(record_in(&entry[1]).participants, [ALICE, [0; 32]]);
    assert_eq!(lottery_state(&entry[1].data), LotteryState::Open);
    vault = entry[1].clone();

    let mut entry = vec![
        wallet(BOB, true, 4 * SOL),
        vault,
        wallet(TRANSFER_FACILITY, false, 1),
    ];
    assert_eq!(Processor::process(&PROGRAM, &mut entry, &[1]), Ok(()));
    let bob = entry[0].clone();
    assert_eq!(bob.lamports, 3 * SOL);
    assert_eq!(record_in(&entry[1]).participants, [ALICE, BOB]);
    assert_eq!(entry[1].lamports, RENT + 2 * SOL);
    assert_eq!(lottery_state(&entry[1].data), LotteryState::Full);
    vault = entry[1].clone();

    let mut late = vec![
        wallet(CAROL, true, 4 * SOL),
        vault.clone(),
        wallet(TRANSFER_FACILITY, false, 1),
    ];
    assert_eq!(
        Processor::process(&PROGRAM, &mut late, &[1]),
        Err(AppError::NoRoom)
    );

    let now = 1_700_000_001;
    let mut resolution = vec![organizer, vault, alice, bob];
    let before = resolution.clone();
    assert_eq!(
        Processor::process_at(&PROGRAM, &mut resolution, &[2], now),
        Ok(())
    );
    assert_eq!(winner_index(now, 2), 1);
    assert_eq!(resolution[3].lamports, before[3].lamports + SOL);
    assert_eq!(resolution[2].lamports, before[2].lamports);
    assert_eq!(resolution[0].lamports, before[0].lamports + SOL + RENT);
    assert_eq!(resolution[1].lamports, 0);
    assert!(resolution[1].data.is_empty());
    assert_eq!(lottery_state(&resolution[1].data), LotteryState::Absent);
    assert_eq!(total(&resolution), total(&before));

    let cleared = resolution.clone();
    for data in [&[1][..], &[2][..], &[0, 1, 0, 0, 0, 50][..]] {
        assert_eq!(
            Processor::process(&PROGRAM, &mut resolution, data),
            Err(AppError::InvalidAccountData)
        );
        assert_eq!(
            Processor::process_at(&PROGRAM, &mut resolution, data, now),
            Err(AppError::InvalidAccountData)
        );
    }
    assert_eq!(resolution, cleared);
}

#[test]
fn lottery_state_is_read_off_the_storage() {
    assert_eq!(lottery_state(&[]), LotteryState::Absent);
    assert_eq!(lottery_state(&[0u8; 100]), LotteryState::Absent);
    assert_eq!(lottery_state(&[0u8; 102]), LotteryState::Absent);
    assert_eq!(lottery_state(&[0u8; 101]), LotteryState::Open);
    assert_eq!(
        lottery_state(&packed(lottery(1, 1, [ALICE, [0; 32]]))),
        LotteryState::Open
    );
    assert_eq!(
        lottery_state(&packed(lottery(1, 1, [[0; 32], BOB]))),
        LotteryState::Open
    );
    assert_eq!(
        lottery_state(&packed(lottery(1, 1, [ALICE, BOB]))),
        LotteryState::Full
    );
}

#[test]
fn record_is_full_when_no_slot_is_empty() {
    assert!(lottery(1, 1, [ALICE, BOB]).is_full());
    assert!(!lottery(1, 1, [ALICE, [0; 32]]).is_full());
    assert!(!lottery(1, 1, [[0; 32], BOB]).is_full());
    assert!(!Lottery::default().is_full());
}

#[test]
fn instructions_against_cleared_storage_fail() {
    let mut accounts = vec![
        wallet(ORGANIZER, true, 5 * SOL),
        storage(0, Vec::new()),
        wallet(ALICE, false, 0),
    ];
    let before = accounts.clone();
    assert_eq!(
        Processor::participate(&PROGRAM, &mut accounts),
        Err(AppError::InvalidAccountData)
    );
    assert_eq!(
        Processor::pick_winner(&PROGRAM, &mut accounts, 0),
        Err(AppError::InvalidAccountData)
    );
    assert_eq!(
        Processor::process(&PROGRAM, &mut accounts, &[2]),
        Err(AppError::InvalidAccountData)
    );
    assert_eq!(accounts, before);

    let mut absent = vec![wallet(ORGANIZER, true, 5 * SOL)];
    for data in [&[1][..], &[2][..], &[0, 1, 0, 0, 0, 50][..]] {
        assert_eq!(
            Processor::process(&PROGRAM, &mut absent, data),
            Err(AppError::NotEnoughAccountKeys)
        );
    }
}

#[test]
fn reinitialising_resets_the_entries() {
    let mut accounts = vec![
        wallet(CAROL, true, 0),
        storage(RENT + SOL, packed(lottery(1, 50, [ALICE, [0; 32]]))),
    ];
    assert_eq!(Processor::init(&PROGRAM, &mut accounts, 2, 5), Ok(()));
    assert_eq!(
        record_in(&accounts[1]),
        Lottery {
            entry_fees: 2,
            initializers_commission: 5,
            initializer: CAROL,
            participants: [[0; 32]; 2],
        }
    );
    assert_eq!(accounts[1].lamports, RENT + SOL);
}
