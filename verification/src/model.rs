use vstd::prelude::*;

verus! {

/// Description of the session keyring entry that holds the unlocked key.
pub const KEY_DESC: &'static str = "master_key";

/// Seconds after which the unlocked key expires from the session keyring.
pub const TIMEOUT: usize = 300;

/// One stored password: the service, the account name, and the encrypted
/// password with the nonce it was encrypted under (both base64).
#[derive(Debug, Clone, PartialEq, Eq, Hash)]
pub struct IndividualService {
    pub service_nonce: String,
    pub service_name: String,
    pub service_username: String,
    pub service_cipher: String,
}

/// What an entry holds, as character sequences.
pub ghost struct EntryView {
    pub nonce: Seq<char>,
    pub name: Seq<char>,
    pub user: Seq<char>,
    pub cipher: Seq<char>,
}

impl View for IndividualService {
    type V = EntryView;

    open spec fn view(&self) -> EntryView {
        EntryView {
            nonce: self.service_nonce@,
            name: self.service_name@,
            user: self.service_username@,
            cipher: self.service_cipher@,
        }
    }
}

/// The vault file: the authentication hash of the master password, the
/// owner, the salt the master password is hashed with, and the entries.
#[derive(Debug)]
pub struct File {
    pub master_password: String,
    pub user: String,
    pub salt: String,
    pub vault: Vec<IndividualService>,
}

/// One row of a CSV file of passwords to import.
#[derive(Debug)]
pub struct CSVfile {
    pub service: String,
    pub user: String,
    pub password: String,
}

/// What a CSV row holds, as character sequences.
pub ghost struct CsvView {
    pub service: Seq<char>,
    pub user: Seq<char>,
    pub password: Seq<char>,
}

impl View for CSVfile {
    type V = CsvView;

    open spec fn view(&self) -> CsvView {
        CsvView { service: self.service@, user: self.user@, password: self.password@ }
    }
}

/// One numbered row of the table in which entries are listed.
pub struct TblServices<'a> {
    pub number: usize,
    pub name: &'a String,
    pub username: &'a String,
    pub password: &'a String,
}

/// The command line: which command to run.
#[derive(Debug)]
pub struct Cli {
    pub service: Service,
}

/// The commands, with their arguments.
#[derive(Debug, PartialEq)]
pub enum Service {
    Show { name: Option<String>, all: bool },
    Get { service: Option<String>, user: Option<String> },
    Add { file: Option<String>, service: Option<String>, user: Option<String>, generate: bool },
    Remove { service: Option<String>, user: Option<String>, all: bool },
    Open,
    Close,
    Purge,
}

/// The ways in which a vault operation can fail.
#[derive(Debug, Clone, Copy, PartialEq, Eq, Structural)]
pub enum VaultError {
    /// The stored salt is not a valid salt string.
    InvalidSalt,
    /// The master password does not match the stored hash.
    IncorrectPassword,
    /// The password is too long to be encrypted.
    Encryption,
    /// The ciphertext does not authenticate under the key and nonce.
    Decryption,
}

/// A result whose text is taken as characters.
pub open spec fn result_view(r: Result<String, VaultError>) -> Result<Seq<char>, VaultError> {
    match r {
        Ok(s) => Ok(s@),
        Err(e) => Err(e),
    }
}

/// The text of an optional argument, empty when it is absent.
pub open spec fn text_or_empty(o: Option<String>) -> Seq<char> {
    match o {
        Some(s) => s@,
        None => Seq::empty(),
    }
}

/// The views of a list of entries.
pub open spec fn entries_view(v: Seq<IndividualService>) -> Seq<EntryView> {
    v.map_values(|e: IndividualService| e@)
}

impl IndividualService {
    /// A copy of this entry.
    pub fn duplicate(&self) -> (res: IndividualService)
        ensures
            res@ == self@,
    {
        IndividualService {
            service_nonce: self.service_nonce.clone(),
            service_name: self.service_name.clone(),
            service_username: self.service_username.clone(),
            service_cipher: self.service_cipher.clone(),
        }
    }
}

} // verus!
