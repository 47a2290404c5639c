//! A fluent builder of unsigned Solana transactions.

use vstd::prelude::*;
use solana_sdk::instruction::{AccountMeta, Instruction};
use solana_sdk::pubkey::Pubkey;
use solana_sdk::transaction::Transaction;
use crate::utils::{duration_from_secs, duration_of_secs, pool_limits_error, validate_pool_limits};

verus! {

/// `solana_sdk::pubkey::Pubkey`, carried through as it is.
#[verifier::external_type_specification]
#[verifier::external_body]
pub struct ExternalPubkey(Pubkey);

/// `solana_sdk::hash::Hash`, carried through as it is.
#[verifier::external_type_specification]
#[verifier::external_body]
pub struct ExternalHash(solana_sdk::hash::Hash);

/// `solana_sdk::transaction::Transaction`, carried through as it is.
#[verifier::external_type_specification]
#[verifier::external_body]
pub struct ExternalTransaction(Transaction);

/// `solana_sdk::instruction::AccountMeta`, whose public fields are read here.
#[verifier::external_type_specification]
pub struct ExternalAccountMeta(AccountMeta);

/// `solana_sdk::instruction::Instruction`, whose public fields are read here.
#[verifier::external_type_specification]
pub struct ExternalInstruction(Instruction);

/// Whether some instruction invokes the program `key`.
pub open spec fn invokes(instructions: Seq<Instruction>, key: Pubkey) -> bool {
    exists|i: int| 0 <= i < instructions.len() && #[trigger] instructions[i].program_id == key
}

/// Whether some instruction names the account `key` (with `signer` set, when
/// `signer_only`; with `writable` set, when `writable_only`).
pub open spec fn names_account(
    instructions: Seq<Instruction>,
    key: Pubkey,
    signer_only: bool,
    writable_only: bool,
) -> bool {
    exists|i: int, j: int|
        0 <= i < instructions.len() && 0 <= j < instructions[i].accounts@.len() && {
            let m = #[trigger] instructions[i].accounts@[j];
            &&& m.pubkey == key
            &&& signer_only ==> m.is_signer
            &&& writable_only ==> m.is_writable
        }
}

/// The keys that a message of these instructions, paid by `payer`, lists: the
/// payer, every program invoked and every account named.
pub open spec fn message_keys(instructions: Seq<Instruction>, payer: Pubkey) -> Set<Pubkey> {
    Set::new(
        |k: Pubkey|
            k == payer || invokes(instructions, k) || names_account(instructions, k, false, false),
    )
}

/// Whether the message must carry a signature for `key`: the payer does, and so
/// does any account that an instruction marks as a signer.
pub open spec fn key_signs(instructions: Seq<Instruction>, payer: Pubkey, key: Pubkey) -> bool {
    key == payer || names_account(instructions, key, true, false)
}

/// Whether the message lets `key` be written: the payer's account is, and so is
/// any account that an instruction marks as writable.
pub open spec fn key_writable(instructions: Seq<Instruction>, payer: Pubkey, key: Pubkey) -> bool {
    key == payer || names_account(instructions, key, false, true)
}

/// Whether the counts in a message header fit in a byte: at most 255 signing
/// keys and at most 255 read-only keys that do not sign.
pub open spec fn message_header_fits(instructions: Seq<Instruction>, payer: Pubkey) -> bool {
    let keys = message_keys(instructions, payer);
    &&& keys.filter(|k: Pubkey| key_signs(instructions, payer, k)).len() <= 255
    &&& keys.filter(
        |k: Pubkey| !key_signs(instructions, payer, k) && !key_writable(instructions, payer, k),
    ).len() <= 255
}

/// The unsigned transaction that `Transaction::new_with_payer` compiles from
/// these instructions and this payer: its message lists the payer's key first
/// and holds one compiled instruction for each instruction given, in the order
/// given. That structure is not stated here, since the message's types are
/// not declared to Verus; only the name is.
pub uninterp spec fn unsigned_transaction(instructions: Seq<Instruction>, payer: Pubkey) -> Transaction;

/// `Transaction::new_with_payer(instructions, Some(payer))`: compiles the
/// message (keys ordered and deduplicated with the payer first, the
/// instructions compiled one for one in the order given, a default blockhash)
/// and leaves every signature empty. The instructions are handed over exactly
/// as the builder holds them. The result is a function of the instructions and the payer
/// alone, and is only named here. It panics when a header count overflows a
/// byte, which `requires` leaves out.
#[verifier::external_body]
fn transaction_with_payer(instructions: &Vec<Instruction>, payer: &Pubkey) -> (tx: Transaction)
    requires
        message_header_fits(instructions@, *payer),
    ensures
        tx == unsigned_transaction(instructions@, *payer),
{
    Transaction::new_with_payer(instructions, Some(payer))
}

/// `==` on public keys (a derived comparison of their bytes): true exactly when
/// the two keys are the same key.
#[verifier::external_body]
fn same_key(a: &Pubkey, b: &Pubkey) -> (r: bool)
    ensures
        r == (*a == *b),
{
    a == b
}

/// A row of the key table: a key, whether it signs, whether it is writable.
type KeyRow = (Pubkey, bool, bool);

/// The flag of a row that `which` selects: 1 its signer flag, 2 its writable
/// flag, anything else no flag at all.
spec fn row_flag(r: KeyRow, which: int) -> bool {
    if which == 1 {
        r.1
    } else if which == 2 {
        r.2
    } else {
        true
    }
}

/// Whether the table has a row for `k` whose selected flag is set.
spec fn row_with(t: Seq<KeyRow>, k: Pubkey, which: int) -> bool {
    exists|x: int| 0 <= x < t.len() && (#[trigger] t[x]).0 == k && row_flag(t[x], which)
}

spec fn has_key(t: Seq<KeyRow>, k: Pubkey) -> bool {
    row_with(t, k, 0)
}

spec fn signs_in(t: Seq<KeyRow>, k: Pubkey) -> bool {
    row_with(t, k, 1)
}

spec fn writes_in(t: Seq<KeyRow>, k: Pubkey) -> bool {
    row_with(t, k, 2)
}

spec fn distinct_keys(t: Seq<KeyRow>) -> bool {
    forall|x: int, y: int| 0 <= x < y < t.len() ==> t[x].0 != t[y].0
}

/// Or-ing `added` into the selected flag of the row of `key` at `x` changes
/// the table's answer only for `key`.
proof fn lemma_row_with_updated(t0: Seq<KeyRow>, x: int, r: KeyRow, k: Pubkey, which: int, added: bool)
    requires
        0 <= x < t0.len(),
        r.0 == t0[x].0,
        row_flag(r, which) == (row_flag(t0[x], which) || added),
    ensures
        row_with(t0.update(x, r), k, which) == (row_with(t0, k, which) || (k == r.0 && added)),
{
    let t1 = t0.update(x, r);
    if row_with(t0, k, which) {
        let y = choose|y: int| 0 <= y < t0.len() && (#[trigger] t0[y]).0 == k && row_flag(t0[y], which);
        assert(t1[y].0 == k && row_flag(t1[y], which));
    }
    if k == r.0 && added {
        assert(t1[x].0 == k && row_flag(t1[x], which));
    }
    if row_with(t1, k, which) {
        let y = choose|y: int| 0 <= y < t1.len() && (#[trigger] t1[y]).0 == k && row_flag(t1[y], which);
        if y != x || row_flag(t0[x], which) {
            assert(t0[y].0 == k && row_flag(t0[y], which));
        }
    }
}

/// Appending a row changes the table's answer only for the appended key.
proof fn lemma_row_with_pushed(t0: Seq<KeyRow>, r: KeyRow, k: Pubkey, which: int)
    ensures
        row_with(t0.push(r), k, which) == (row_with(t0, k, which) || (k == r.0 && row_flag(r, which))),
{
    let t1 = t0.push(r);
    let last = t0.len() as int;
    if row_with(t0, k, which) {
        let y = choose|y: int| 0 <= y < t0.len() && (#[trigger] t0[y]).0 == k && row_flag(t0[y], which);
        assert(t1[y].0 == k && row_flag(t1[y], which));
    }
    if k == r.0 && row_flag(r, which) {
        assert(t1[last].0 == k && row_flag(t1[last], which));
    }
    if row_with(t1, k, which) {
        let y = choose|y: int| 0 <= y < t1.len() && (#[trigger] t1[y]).0 == k && row_flag(t1[y], which);
        if y < last {
            assert(t0[y].0 == k && row_flag(t0[y], which));
        }
    }
}

/// Adds `key` to the table, or-ing its flags into the row it already has.
fn note_key(table: &mut Vec<KeyRow>, key: Pubkey, signer: bool, writable: bool)
    requires
        distinct_keys(old(table)@),
    ensures
        distinct_keys(final(table)@),
        forall|k: Pubkey| #[trigger]
            has_key(final(table)@, k) == (has_key(old(table)@, k) || k == key),
        forall|k: Pubkey| #[trigger]
            signs_in(final(table)@, k) == (signs_in(old(table)@, k) || (k == key && signer)),
        forall|k: Pubkey| #[trigger]
            writes_in(final(table)@, k) == (writes_in(old(table)@, k) || (k == key && writable)),
{
    let ghost t0 = table@;
    let mut x: usize = 0;
    while x < table.len()
        invariant
            table@ == t0,
            t0 == old(table)@,
            distinct_keys(t0),
            x <= t0.len(),
            forall|y: int| 0 <= y < x ==> (#[trigger] t0[y]).0 != key,
        decreases t0.len() - x,
    {
        if same_key(&table[x].0, &key) {
            let row = table[x];
            let new_row = (row.0, row.1 || signer, row.2 || writable);
            table.set(x, new_row);
            proof {
                assert(row == t0[x as int]);
                assert forall|k: Pubkey| #[trigger]
                    has_key(table@, k) == (has_key(t0, k) || k == key) by {
                    lemma_row_with_updated(t0, x as int, new_row, k, 0, true);
                }
                assert forall|k: Pubkey| #[trigger]
                    signs_in(table@, k) == (signs_in(t0, k) || (k == key && signer)) by {
                    lemma_row_with_updated(t0, x as int, new_row, k, 1, signer);
                }
                assert forall|k: Pubkey| #[trigger]
                    writes_in(table@, k) == (writes_in(t0, k) || (k == key && writable)) by {
                    lemma_row_with_updated(t0, x as int, new_row, k, 2, writable);
                }
                assert forall|y: int, z: int| 0 <= y < z < table@.len() implies table@[y].0
                    != table@[z].0 by {
                    assert(t0[y].0 != t0[z].0);
                }
            }
            return;
        }
        x = x + 1;
    }
    let new_row = (key, signer, writable);
    table.push(new_row);
    proof {
        assert forall|k: Pubkey| #[trigger] has_key(table@, k) == (has_key(t0, k) || k == key) by {
            lemma_row_with_pushed(t0, new_row, k, 0);
        }
        assert forall|k: Pubkey| #[trigger]
            signs_in(table@, k) == (signs_in(t0, k) || (k == key && signer)) by {
            lemma_row_with_pushed(t0, new_row, k, 1);
        }
        assert forall|k: Pubkey| #[trigger]
            writes_in(table@, k) == (writes_in(t0, k) || (k == key && writable)) by {
            lemma_row_with_pushed(t0, new_row, k, 2);
        }
        assert forall|y: int, z: int| 0 <= y < z < table@.len() implies table@[y].0 != table@[z].0 by {
            if z < t0.len() {
                assert(t0[y].0 != t0[z].0);
            } else {
                assert(t0[y].0 != key);
            }
        }
    }
}

/// Whether one of the first `i` instructions invokes the program `key`.
spec fn seen_program(instructions: Seq<Instruction>, key: Pubkey, i: int) -> bool {
    exists|a: int| 0 <= a < i && a < instructions.len() && #[trigger] instructions[a].program_id == key
}

/// Whether one of the accounts of the first `i` instructions, or one of the
/// first `j` accounts of instruction `i`, is `key` with the flags asked for.
spec fn seen_account(
    instructions: Seq<Instruction>,
    key: Pubkey,
    i: int,
    j: int,
    signer_only: bool,
    writable_only: bool,
) -> bool {
    exists|a: int, b: int|
        0 <= a < instructions.len() && 0 <= b < instructions[a].accounts@.len() && (a < i || (a == i
            && b < j)) && {
            let m = #[trigger] instructions[a].accounts@[b];
            &&& m.pubkey == key
            &&& signer_only ==> m.is_signer
            &&& writable_only ==> m.is_writable
        }
}

proof fn lemma_seen_program_step(instructions: Seq<Instruction>, key: Pubkey, i: int)
    requires
        0 <= i < instructions.len(),
    ensures
        seen_program(instructions, key, i + 1) == (seen_program(instructions, key, i)
            || instructions[i].program_id == key),
{
    if seen_program(instructions, key, i + 1) {
        let a = choose|a: int|
            0 <= a < i + 1 && a < instructions.len() && #[trigger] instructions[a].program_id == key;
        if a < i {
            assert(seen_program(instructions, key, i));
        }
    }
    if seen_program(instructions, key, i) {
        let a = choose|a: int|
            0 <= a < i && a < instructions.len() && #[trigger] instructions[a].program_id == key;
        assert(seen_program(instructions, key, i + 1));
    }
    if instructions[i].program_id == key {
        assert(seen_program(instructions, key, i + 1));
    }
}

proof fn lemma_seen_account_step(
    instructions: Seq<Instruction>,
    key: Pubkey,
    i: int,
    j: int,
    signer_only: bool,
    writable_only: bool,
)
    requires
        0 <= i < instructions.len(),
        0 <= j < instructions[i].accounts@.len(),
    ensures
        seen_account(instructions, key, i, j + 1, signer_only, writable_only) == (seen_account(
            instructions,
            key,
            i,
            j,
            signer_only,
            writable_only,
        ) || {
            let m = instructions[i].accounts@[j];
            &&& m.pubkey == key
            &&& signer_only ==> m.is_signer
            &&& writable_only ==> m.is_writable
        }),
{
    let m = instructions[i].accounts@[j];
    if seen_account(instructions, key, i, j + 1, signer_only, writable_only) {
        let (a, b) = choose|a: int, b: int|
            0 <= a < instructions.len() && 0 <= b < instructions[a].accounts@.len() && (a < i || (a
                == i && b < j + 1)) && {
                let m = #[trigger] instructions[a].accounts@[b];
                &&& m.pubkey == key
                &&& signer_only ==> m.is_signer
                &&& writable_only ==> m.is_writable
            };
        if a < i || b < j {
            assert(seen_account(instructions, key, i, j, signer_only, writable_only));
        }
    }
    if seen_account(instructions, key, i, j, signer_only, writable_only) {
        let (a, b) = choose|a: int, b: int|
            0 <= a < instructions.len() && 0 <= b < instructions[a].accounts@.len() && (a < i || (a
                == i && b < j)) && {
                let m = #[trigger] instructions[a].accounts@[b];
                &&& m.pubkey == key
                &&& signer_only ==> m.is_signer
                &&& writable_only ==> m.is_writable
            };
        assert(seen_account(instructions, key, i, j + 1, signer_only, writable_only));
    }
    if m.pubkey == key && (signer_only ==> m.is_signer) && (writable_only ==> m.is_writable) {
        assert(seen_account(instructions, key, i, j + 1, signer_only, writable_only));
    }
}

proof fn lemma_seen_account_next_instruction(
    instructions: Seq<Instruction>,
    key: Pubkey,
    i: int,
    signer_only: bool,
    writable_only: bool,
)
    requires
        0 <= i < instructions.len(),
    ensures
        seen_account(instructions, key, i, instructions[i].accounts@.len() as int, signer_only, writable_only)
            == seen_account(instructions, key, i + 1, 0, signer_only, writable_only),
{
    let len = instructions[i].accounts@.len() as int;
    if seen_account(instructions, key, i, len, signer_only, writable_only) {
        let (a, b) = choose|a: int, b: int|
            0 <= a < instructions.len() && 0 <= b < instructions[a].accounts@.len() && (a < i || (a
                == i && b < len)) && {
                let m = #[trigger] instructions[a].accounts@[b];
                &&& m.pubkey == key
                &&& signer_only ==> m.is_signer
                &&& writable_only ==> m.is_writable
            };
        assert(seen_account(instructions, key, i + 1, 0, signer_only, writable_only));
    }
    if seen_account(instructions, key, i + 1, 0, signer_only, writable_only) {
        let (a, b) = choose|a: int, b: int|
            0 <= a < instructions.len() && 0 <= b < instructions[a].accounts@.len() && (a < i + 1 || (
            a == i + 1 && b < 0)) && {
                let m = #[trigger] instructions[a].accounts@[b];
                &&& m.pubkey == key
                &&& signer_only ==> m.is_signer
                &&& writable_only ==> m.is_writable
            };
        assert(seen_account(instructions, key, i, len, signer_only, writable_only));
    }
}

proof fn lemma_seen_all(
    instructions: Seq<Instruction>,
    key: Pubkey,
    signer_only: bool,
    writable_only: bool,
)
    ensures
        seen_account(instructions, key, instructions.len() as int, 0, signer_only, writable_only)
            == names_account(instructions, key, signer_only, writable_only),
        seen_program(instructions, key, instructions.len() as int) == invokes(instructions, key),
        names_account(instructions, key, signer_only, writable_only) ==> names_account(
            instructions,
            key,
            false,
            false,
        ),
{
    let n = instructions.len() as int;
    if names_account(instructions, key, signer_only, writable_only) {
        let (a, b) = choose|a: int, b: int|
            0 <= a < instructions.len() && 0 <= b < instructions[a].accounts@.len() && {
                let m = #[trigger] instructions[a].accounts@[b];
                &&& m.pubkey == key
                &&& signer_only ==> m.is_signer
                &&& writable_only ==> m.is_writable
            };
        assert(seen_account(instructions, key, n, 0, signer_only, writable_only));
        assert(names_account(instructions, key, false, false));
    }
    if seen_account(instructions, key, n, 0, signer_only, writable_only) {
        let (a, b) = choose|a: int, b: int|
            0 <= a < instructions.len() && 0 <= b < instructions[a].accounts@.len() && (a < n || (a
                == n && b < 0)) && {
                let m = #[trigger] instructions[a].accounts@[b];
                &&& m.pubkey == key
                &&& signer_only ==> m.is_signer
                &&& writable_only ==> m.is_writable
            };
        assert(names_account(instructions, key, signer_only, writable_only));
    }
    if invokes(instructions, key) {
        let a = choose|a: int| 0 <= a < instructions.len() && #[trigger] instructions[a].program_id == key;
        assert(seen_program(instructions, key, n));
    }
}

/// Whether the message of these instructions, paid by `payer`, fits its header.
fn header_fits_for(instructions: &Vec<Instruction>, payer: &Pubkey) -> (fits: bool)
    ensures
        fits == message_header_fits(instructions@, *payer),
{
    let ghost ixs = instructions@;
    let ghost p = *payer;
    let mut table: Vec<KeyRow> = Vec::new();
    note_key(&mut table, *payer, true, true);
    let n = instructions.len();
    let mut i: usize = 0;
    while i < n
        invariant
            n == ixs.len(),
            ixs == instructions@,
            p == *payer,
            i <= n,
            distinct_keys(table@),
            forall|k: Pubkey| #[trigger] has_key(table@, k) == (k == p || seen_program(ixs, k, i as int)),
            forall|k: Pubkey| #[trigger] signs_in(table@, k) == (k == p),
            forall|k: Pubkey| #[trigger] writes_in(table@, k) == (k == p),
        decreases n - i,
    {
        note_key(&mut table, instructions[i].program_id, false, false);
        proof {
            assert forall|k: Pubkey| #[trigger]
                has_key(table@, k) == (k == p || seen_program(ixs, k, i + 1)) by {
                lemma_seen_program_step(ixs, k, i as int);
            }
        }
        i = i + 1;
    }
    i = 0;
    while i < n
        invariant
            n == ixs.len(),
            ixs == instructions@,
            p == *payer,
            i <= n,
            distinct_keys(table@),
            forall|k: Pubkey| #[trigger]
                has_key(table@, k) == (k == p || invokes(ixs, k) || seen_account(ixs, k, i as int, 0, false, false)),
            forall|k: Pubkey| #[trigger]
                signs_in(table@, k) == (k == p || seen_account(ixs, k, i as int, 0, true, false)),
            forall|k: Pubkey| #[trigger]
                writes_in(table@, k) == (k == p || seen_account(ixs, k, i as int, 0, false, true)),
        decreases n - i,
    {
        if i == 0 {
            proof {
                assert forall|k: Pubkey| #[trigger]
                    has_key(table@, k) == (k == p || invokes(ixs, k) || seen_account(ixs, k, 0, 0, false, false)) by {
                    lemma_seen_all(ixs, k, false, false);
                    if seen_account(ixs, k, 0, 0, false, false) {
                        let (a, b) = choose|a: int, b: int|
                            0 <= a < ixs.len() && 0 <= b < ixs[a].accounts@.len() && (a < 0 || (a == 0 && b < 0)) && {
                                let m = #[trigger] ixs[a].accounts@[b];
                                &&& m.pubkey == k
                                &&& false ==> m.is_signer
                                &&& false ==> m.is_writable
                            };
                    }
                }
            }
        }
        let accounts = &instructions[i].accounts;
        let m_len = accounts.len();
        let mut j: usize = 0;
        while j < m_len
            invariant
                n == ixs.len(),
                ixs == instructions@,
                p == *payer,
                i < n,
                j <= m_len,
                m_len == ixs[i as int].accounts@.len(),
                accounts@ == ixs[i as int].accounts@,
                distinct_keys(table@),
                forall|k: Pubkey| #[trigger]
                    has_key(table@, k) == (k == p || invokes(ixs, k) || seen_account(ixs, k, i as int, j as int, false, false)),
                forall|k: Pubkey| #[trigger]
                    signs_in(table@, k) == (k == p || seen_account(ixs, k, i as int, j as int, true, false)),
                forall|k: Pubkey| #[trigger]
                    writes_in(table@, k) == (k == p || seen_account(ixs, k, i as int, j as int, false, true)),
            decreases m_len - j,
        {
            let m = &accounts[j];
            note_key(&mut table, m.pubkey, m.is_signer, m.is_writable);
            proof {
                assert forall|k: Pubkey| #[trigger]
                    has_key(table@, k) == (k == p || invokes(ixs, k) || seen_account(ixs, k, i as int, j + 1, false, false)) by {
                    lemma_seen_account_step(ixs, k, i as int, j as int, false, false);
                }
                assert forall|k: Pubkey| #[trigger]
                    signs_in(table@, k) == (k == p || seen_account(ixs, k, i as int, j + 1, true, false)) by {
                    lemma_seen_account_step(ixs, k, i as int, j as int, true, false);
                }
                assert forall|k: Pubkey| #[trigger]
                    writes_in(table@, k) == (k == p || seen_account(ixs, k, i as int, j + 1, false, true)) by {
                    lemma_seen_account_step(ixs, k, i as int, j as int, false, true);
                }
            }
            j = j + 1;
        }
        proof {
            assert forall|k: Pubkey| #[trigger]
                has_key(table@, k) == (k == p || invokes(ixs, k) || seen_account(ixs, k, i + 1, 0, false, false)) by {
                lemma_seen_account_next_instruction(ixs, k, i as int, false, false);
            }
            assert forall|k: Pubkey| #[trigger]
                signs_in(table@, k) == (k == p || seen_account(ixs, k, i + 1, 0, true, false)) by {
                lemma_seen_account_next_instruction(ixs, k, i as int, true, false);
            }
            assert forall|k: Pubkey| #[trigger]
                writes_in(table@, k) == (k == p || seen_account(ixs, k, i + 1, 0, false, true)) by {
                lemma_seen_account_next_instruction(ixs, k, i as int, false, true);
            }
        }
        i = i + 1;
    }
    let ghost keys = message_keys(ixs, p);
    let ghost signing_keys = keys.filter(|k: Pubkey| key_signs(ixs, p, k));
    let ghost readonly_keys = keys.filter(
        |k: Pubkey| !key_signs(ixs, p, k) && !key_writable(ixs, p, k),
    );
    proof {
        assert forall|k: Pubkey| #[trigger] has_key(table@, k) == keys.contains(k) by {
            lemma_seen_all(ixs, k, false, false);
        }
        assert forall|k: Pubkey| #[trigger] signs_in(table@, k) == signing_keys.contains(k) by {
            lemma_seen_all(ixs, k, true, false);
        }
        assert forall|k: Pubkey| #[trigger] writes_in(table@, k) == key_writable(ixs, p, k) by {
            lemma_seen_all(ixs, k, false, true);
        }
    }
    let t = table.len();
    let mut signing: usize = 0;
    let mut readonly: usize = 0;
    let ghost mut seen_signing: Set<Pubkey> = Set::empty();
    let ghost mut seen_readonly: Set<Pubkey> = Set::empty();
    let mut x: usize = 0;
    while x < t
        invariant
            t == table@.len(),
            x <= t,
            distinct_keys(table@),
            seen_signing.finite(),
            seen_readonly.finite(),
            seen_signing.len() == signing,
            seen_readonly.len() == readonly,
            signing <= x,
            readonly <= x,
            forall|k: Pubkey| #[trigger] seen_signing.contains(k) <==> exists|y: int|
                0 <= y < x && (#[trigger] table@[y]).0 == k && table@[y].1,
            forall|k: Pubkey| #[trigger] seen_readonly.contains(k) <==> exists|y: int|
                0 <= y < x && (#[trigger] table@[y]).0 == k && !table@[y].1 && !table@[y].2,
        decreases t - x,
    {
        let row = table[x];
        proof {
            assert forall|y: int| 0 <= y < x implies (#[trigger] table@[y]).0 != row.0 by {
            }
        }
        if row.1 {
            proof {
                assert(!seen_signing.contains(row.0));
                seen_signing = seen_signing.insert(row.0);
                assert(table@[x as int] == row);
            }
            signing = signing + 1;
        } else if !row.2 {
            proof {
                assert(!seen_readonly.contains(row.0));
                seen_readonly = seen_readonly.insert(row.0);
                assert(table@[x as int] == row);
            }
            readonly = readonly + 1;
        }
        x = x + 1;
    }
    proof {
        assert forall|k: Pubkey| seen_signing.contains(k) == signing_keys.contains(k) by {
            if signs_in(table@, k) {
                let y = choose|y: int| 0 <= y < table@.len() && (#[trigger] table@[y]).0 == k && table@[y].1;
                assert(seen_signing.contains(k));
            }
        }
        assert(seen_signing =~= signing_keys);
        assert forall|k: Pubkey| seen_readonly.contains(k) == readonly_keys.contains(k) by {
            if seen_readonly.contains(k) {
                let y = choose|y: int|
                    0 <= y < t && (#[trigger] table@[y]).0 == k && !table@[y].1 && !table@[y].2;
                assert(has_key(table@, k));
                if signs_in(table@, k) {
                    let z = choose|z: int| 0 <= z < table@.len() && (#[trigger] table@[z]).0 == k && table@[z].1;
                    assert(z != y);
                }
                if writes_in(table@, k) {
                    let z = choose|z: int| 0 <= z < table@.len() && (#[trigger] table@[z]).0 == k && table@[z].2;
                    assert(z != y);
                }
            }
            if readonly_keys.contains(k) {
                assert(has_key(table@, k));
                let y = choose|y: int| 0 <= y < table@.len() && (#[trigger] table@[y]).0 == k;
                if table@[y].1 {
                    assert(signs_in(table@, k));
                }
                if table@[y].2 {
                    assert(writes_in(table@, k));
                }
                assert(seen_readonly.contains(k));
            }
        }
        assert(seen_readonly =~= readonly_keys);
    }
    signing <= 255 && readonly <= 255
}

/// Collects the instructions, signers and payer of a transaction.
pub struct TransactionBuilder {
    instructions: Vec<Instruction>,
    signers: Vec<Pubkey>,
    payer: Option<Pubkey>,
}

impl TransactionBuilder {
    /// The instructions added so far, in order.
    pub closed spec fn planned_instructions(self) -> Seq<Instruction> {
        self.instructions@
    }

    /// The signers added so far, in order.
    pub closed spec fn planned_signers(self) -> Seq<Pubkey> {
        self.signers@
    }

    /// The payer, once one is set.
    pub closed spec fn planned_payer(self) -> Option<Pubkey> {
        self.payer
    }

    /// A builder with no instructions, no signers and no payer.
    pub fn new() -> (b: Self)
        ensures
            b.planned_instructions() == Seq::<Instruction>::empty(),
            b.planned_signers() == Seq::<Pubkey>::empty(),
            b.planned_payer() is None,
    {
        TransactionBuilder { instructions: Vec::new(), signers: Vec::new(), payer: None }
    }

    /// Sets the account that pays for the transaction.
    pub fn payer(self, payer: Pubkey) -> (b: Self)
        ensures
            b.planned_payer() == Some(payer),
            b.planned_instructions() == self.planned_instructions(),
            b.planned_signers() == self.planned_signers(),
    {
        let mut b = self;
        b.payer = Some(payer);
        b
    }

    /// Appends an instruction.
    pub fn instruction(self, ix: Instruction) -> (b: Self)
        ensures
            b.planned_instructions() == self.planned_instructions().push(ix),
            b.planned_signers() == self.planned_signers(),
            b.planned_payer() == self.planned_payer(),
    {
        let mut b = self;
        b.instructions.push(ix);
        b
    }

    /// Appends a signer.
    pub fn signer(self, signer: Pubkey) -> (b: Self)
        ensures
            b.planned_signers() == self.planned_signers().push(signer),
            b.planned_instructions() == self.planned_instructions(),
            b.planned_payer() == self.planned_payer(),
    {
        let mut b = self;
        b.signers.push(signer);
        b
    }

    /// The unsigned transaction of the instructions, paid by the payer. The
    /// payer must be set; the signers and `recent_blockhash` are not used.
    pub fn build(self, recent_blockhash: solana_sdk::hash::Hash) -> (tx: Transaction)
        requires
            self.planned_payer() is Some,
            message_header_fits(self.planned_instructions(), self.planned_payer()->0),
        ensures
            tx == unsigned_transaction(self.planned_instructions(), self.planned_payer()->0),
    {
        let payer = self.payer.unwrap();
        transaction_with_payer(&self.instructions, &payer)
    }

    /// Whether `build` may be called: the payer is set and the message's header
    /// counts fit in a byte.
    pub fn header_fits(&self) -> (fits: bool)
        ensures
            fits == (self.planned_payer() is Some && message_header_fits(
                self.planned_instructions(),
                self.planned_payer()->0,
            )),
    {
        match self.payer {
            Some(payer) => header_fits_for(&self.instructions, &payer),
            None => false,
        }
    }

    /// How many instructions have been added.
    pub fn instruction_count(&self) -> (n: usize)
        ensures
            n == self.planned_instructions().len(),
    {
        self.instructions.len()
    }
}

impl Default for TransactionBuilder {
    /// The same as `TransactionBuilder::new`.
    fn default() -> (b: Self)
        ensures
            b.planned_instructions() == Seq::<Instruction>::empty(),
            b.planned_signers() == Seq::<Pubkey>::empty(),
            b.planned_payer() is None,
    {
        Self::new()
    }
}

/// Connection pool configuration.
#[derive(Debug, Clone)]
pub struct PoolConfig_7496 {
    pub min_connections: usize,
    pub max_connections: usize,
    pub idle_timeout: std::time::Duration,
    pub max_lifetime: std::time::Duration,
}

impl Default for PoolConfig_7496 {
    /// Two to ten connections, idle for at most five minutes, living at most an hour.
    fn default() -> (config: Self)
        ensures
            config.min_connections == 2,
            config.max_connections == 10,
            config.idle_timeout == duration_of_secs(300),
            config.max_lifetime == duration_of_secs(3600),
    {
        PoolConfig_7496 {
            min_connections: 2,
            max_connections: 10,
            idle_timeout: duration_from_secs(300),
            max_lifetime: duration_from_secs(3600),
        }
    }
}

impl PoolConfig_7496 {
    /// Checks the connection limits (see `pool_limits_error`).
    pub fn validate(&self) -> (r: Result<(), String>)
        ensures
            match pool_limits_error(self.min_connections, self.max_connections) {
                None => r is Ok,
                Some(msg) => r matches Err(e) && e@ == msg,
            },
            r is Ok <==> (1 <= self.max_connections && self.min_connections <= self.max_connections),
    {
        validate_pool_limits(self.min_connections, self.max_connections)
    }
}

} // verus!
