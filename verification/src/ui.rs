use rand::Rng;
use vstd::prelude::*;

use crate::model::{entries_view, result_view, EntryView, IndividualService, TblServices, VaultError};
use crate::text::{chars_of, parse_usize, parsed_usize, push_char};

verus! {

/// The mask shown in place of a password.
pub open spec fn mask() -> Seq<char> {
    "**********"@
}

/// An entry with its password replaced by the mask.
pub open spec fn masked(e: EntryView) -> EntryView {
    EntryView { cipher: mask(), ..e }
}

/// Replaces each entry's password with a fixed mask so it isn't shown in plaintext.
pub fn obscure_cipher(s: &[IndividualService]) -> (res: Vec<IndividualService>)
    ensures
        entries_view(res@) == entries_view(s@).map_values(|e: EntryView| masked(e)),
{
    let mut res: Vec<IndividualService> = Vec::new();
    let mut i: usize = 0;
    while i < s.len()
        invariant
            i <= s@.len(),
            entries_view(res@) == entries_view(s@).take(i as int).map_values(|e: EntryView| masked(e)),
        decreases s.len() - i,
    {
        let e = &s[i];
        let ghost before = res@;
        res.push(
            IndividualService {
                service_nonce: e.service_nonce.clone(),
                service_name: e.service_name.clone(),
                service_username: e.service_username.clone(),
                service_cipher: "**********".to_owned(),
            },
        );
        assert(entries_view(res@) =~= entries_view(before).push(masked(e@)));
        assert(entries_view(s@).take(i + 1).map_values(|e: EntryView| masked(e))
            =~= entries_view(s@).take(i as int).map_values(|e: EntryView| masked(e)).push(masked(e@)));
        i += 1;
    }
    assert(entries_view(s@).take(i as int) =~= entries_view(s@));
    res
}

/// Law: masking twice masks no differently from masking once.
pub proof fn lemma_mask_idempotent(e: EntryView)
    ensures
        masked(masked(e)) == masked(e),
{
}

/// The numbered rows in which entries are listed: row `i` is numbered `i + 1`
/// and shows the service, username and (possibly masked) password of entry `i`.
pub fn service_rows(s: &[IndividualService]) -> (res: Vec<TblServices<'_>>)
    ensures
        res@.len() == s@.len(),
        forall|i: int|
            0 <= i < s@.len() ==> {
                &&& (#[trigger] res@[i]).number == i + 1
                &&& res@[i].name@ == s@[i].service_name@
                &&& res@[i].username@ == s@[i].service_username@
                &&& res@[i].password@ == s@[i].service_cipher@
            },
{
    let mut rows: Vec<TblServices> = Vec::new();
    let mut i: usize = 0;
    while i < s.len()
        invariant
            i <= s@.len(),
            rows@.len() == i,
            forall|j: int|
                0 <= j < i ==> {
                    &&& (#[trigger] rows@[j]).number == j + 1
                    &&& rows@[j].name@ == s@[j].service_name@
                    &&& rows@[j].username@ == s@[j].service_username@
                    &&& rows@[j].password@ == s@[j].service_cipher@
                },
        decreases s.len() - i,
    {
        let serv = &s[i];
        rows.push(
            TblServices {
                number: i + 1,
                name: &serv.service_name,
                username: &serv.service_username,
                password: &serv.service_cipher,
            },
        );
        i += 1;
    }
    rows
}

/// What row `i` of `show --all` holds: entry `i` with its password in place
/// of its ciphertext when it decrypted, and left as stored when it did not.
pub open spec fn revealed(e: EntryView, outcome: Result<Seq<char>, VaultError>) -> EntryView {
    match outcome {
        Ok(p) => EntryView { cipher: p, ..e },
        Err(_) => e,
    }
}

/// The entries shown by `show --all`: entry `i` with its own decrypted
/// password, or as stored when its decryption failed.
pub fn reveal_passwords(services: Vec<IndividualService>, outcomes: &Vec<Result<String, VaultError>>) -> (res: Vec<IndividualService>)
    requires
        outcomes@.len() == services@.len(),
    ensures
        res@.len() == services@.len(),
        forall|i: int|
            0 <= i < services@.len() ==> (#[trigger] res@[i])@ == revealed(
                services@[i]@,
                result_view(outcomes@[i]),
            ),
{
    let mut res: Vec<IndividualService> = Vec::new();
    let mut i: usize = 0;
    while i < services.len()
        invariant
            i <= services@.len(),
            outcomes@.len() == services@.len(),
            res@.len() == i,
            forall|j: int|
                0 <= j < i ==> (#[trigger] res@[j])@ == revealed(
                    services@[j]@,
                    result_view(outcomes@[j]),
                ),
        decreases services.len() - i,
    {
        let e = &services[i];
        let shown = match &outcomes[i] {
            Ok(p) => p.clone(),
            Err(_) => e.service_cipher.clone(),
        };
        res.push(
            IndividualService {
                service_nonce: e.service_nonce.clone(),
                service_name: e.service_name.clone(),
                service_username: e.service_username.clone(),
                service_cipher: shown,
            },
        );
        i += 1;
    }
    res
}

/// Why a new master password is refused.
#[derive(Debug, Clone, Copy, PartialEq, Eq, Structural)]
pub enum PasswordProblem {
    /// It has fewer than 7 characters.
    TooShort,
    /// It holds a character outside ASCII.
    NotAscii,
}

/// Checks a new master password: at least 7 characters, all ASCII.
pub fn validate_master_password(i: &String) -> (res: Result<(), PasswordProblem>)
    ensures
        res == if i@.len() < 7 {
            Err::<(), PasswordProblem>(PasswordProblem::TooShort)
        } else if !vstd::utf8::is_ascii_chars(i@) {
            Err(PasswordProblem::NotAscii)
        } else {
            Ok(())
        },
{
    let n = chars_of(i.as_str()).len();
    if n < 7 {
        Err(PasswordProblem::TooShort)
    } else if !i.as_str().is_ascii() {
        Err(PasswordProblem::NotAscii)
    } else {
        Ok(())
    }
}

/// Why an answer to the entry prompt is refused.
#[derive(Debug, Clone, Copy, PartialEq, Eq, Structural)]
pub enum ChoiceProblem {
    /// The answer is not a number.
    NotANumber,
    /// The number is neither 0 nor the number of a listed entry.
    NoSuchEntry,
}

/// Reads the answer to "enter the number of an entry, or 0 to exit" for a
/// list of `count` entries: the number, when it is 0 or between 1 and
/// `count`.
pub fn parse_entry_choice(input: &str, count: usize) -> (res: Result<usize, ChoiceProblem>)
    ensures
        res == match parsed_usize(input@) {
            Some(n) => if n <= count {
                Ok::<usize, ChoiceProblem>(n)
            } else {
                Err(ChoiceProblem::NoSuchEntry)
            },
            None => Err(ChoiceProblem::NotANumber),
        },
{
    match parse_usize(input) {
        Some(n) => {
            if n <= count {
                Ok(n)
            } else {
                Err(ChoiceProblem::NoSuchEntry)
            }
        },
        None => Err(ChoiceProblem::NotANumber),
    }
}

/// The entry chosen by number: none for 0, else the `n`-th.
pub fn entry_for_choice(s: &[IndividualService], n: usize) -> (res: Option<&IndividualService>)
    requires
        n <= s@.len(),
    ensures
        n == 0 ==> res is None,
        n > 0 ==> res == Some(&s@[n - 1]),
{
    if n == 0 {
        None
    } else {
        Some(&s[n - 1])
    }
}

/// Whether the answer to the purge prompt confirms it: exactly "PURGE".
pub fn purge_confirmed(input: &String) -> (res: bool)
    ensures
        res == (input@ == "PURGE"@),
{
    let word = "PURGE".to_owned();
    *input == word
}

/// The characters random passwords are made of.
pub open spec fn password_charset() -> Seq<char> {
    "ABCDEFGHIJKLMNOPQRSTUVWXYZabcdefghijklmnopqrstuvwxyz0123456789)(*&^%$#@!"@
}

/// `Rng::gen_range(0..n)` on the thread-local generator of the rand crate: a
/// random index below `n`; which one is left open. An empty range panics;
/// `requires` leaves it out.
#[verifier::external_body]
fn random_index(n: usize) -> (res: usize)
    requires
        n > 0,
    ensures
        res < n,
{
    rand::thread_rng().gen_range(0..n)
}

/// The password whose `i`-th character is the character at `idx[i]` in the
/// password character set.
pub fn password_from_indices(idx: &Vec<usize>) -> (res: String)
    requires
        idx@.len() == 12,
        forall|i: int| 0 <= i < 12 ==> idx@[i] < 72,
    ensures
        res@.len() == 12,
        forall|i: int| 0 <= i < 12 ==> res@[i] == password_charset()[idx@[i] as int],
{
    let charset = chars_of("ABCDEFGHIJKLMNOPQRSTUVWXYZabcdefghijklmnopqrstuvwxyz0123456789)(*&^%$#@!");
    proof {
        reveal_strlit("ABCDEFGHIJKLMNOPQRSTUVWXYZabcdefghijklmnopqrstuvwxyz0123456789)(*&^%$#@!");
    }
    let mut res = String::new();
    let mut i: usize = 0;
    while i < 12
        invariant
            i <= 12,
            idx@.len() == 12,
            forall|j: int| 0 <= j < 12 ==> idx@[j] < 72,
            charset@ == password_charset(),
            charset@.len() == 72,
            res@.len() == i,
            forall|j: int| 0 <= j < i ==> res@[j] == password_charset()[idx@[j] as int],
        decreases 12 - i,
    {
        let c = charset[idx[i]];
        push_char(&mut res, c);
        i += 1;
    }
    res
}

/// Generates a random plaintext password: 12 characters, each drawn at random
/// from the password character set.
pub fn gen_plain_password() -> (res: String)
    ensures
        res@.len() == 12,
        forall|i: int| 0 <= i < 12 ==> password_charset().contains(#[trigger] res@[i]),
{
    let mut idx: Vec<usize> = Vec::new();
    while idx.len() < 12
        invariant
            idx@.len() <= 12,
            forall|j: int| 0 <= j < idx@.len() ==> idx@[j] < 72,
        decreases 12 - idx@.len(),
    {
        idx.push(random_index(72));
    }
    let res = password_from_indices(&idx);
    assert forall|i: int| 0 <= i < 12 implies password_charset().contains(#[trigger] res@[i]) by {
        reveal_strlit("ABCDEFGHIJKLMNOPQRSTUVWXYZabcdefghijklmnopqrstuvwxyz0123456789)(*&^%$#@!");
        assert(password_charset()[idx@[i] as int] == res@[i]);
    }
    res
}

} // verus!
