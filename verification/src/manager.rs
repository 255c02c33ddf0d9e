//! The vault as its caller holds it: the check of the master passphrase in
//! front of the record store, and the operations on both.

use crate::error::VaultError;
use crate::generator::alphabet;
use crate::hasher::digest;
use crate::hasher::digest_text;
use crate::hasher::verify;
use crate::hasher::verify_spec;
use crate::store::delete_records;
use crate::store::listing;
use crate::store::pair_texts;
use crate::store::upsert_records;
use crate::store::EntryView;
use crate::store::PasswordEntry;
use crate::store::RecordStore;
use crate::text::lemma_empty_text_has_no_bytes;
use crate::text::lemma_text_of_bytes;
use crate::text::text_from_bytes;
use crate::text::text_of;
use crate::transform::decode;
use crate::transform::decode_spec;
use crate::transform::encode;
use crate::transform::encode_spec;
use crate::transform::lemma_decode_inverts_encode;
use crate::vault::line_texts;
use crate::vault::lines_of;
use crate::vault::load_records;
use vstd::prelude::*;
use vstd::string::StringSliceAdditionalSpecFns;
use vstd::utf8::encode_utf8;

verus! {

/// The encoded form of the text `text` under the text `key`.
pub open spec fn encrypt_spec(text: Seq<char>, key: Seq<char>) -> Seq<char>
    recommends
        key.len() > 0,
{
    encode_spec(encode_utf8(text), encode_utf8(key))
}

/// The text that `encrypted` decodes to under the text `key`.
pub open spec fn decrypt_spec(encrypted: Seq<char>, key: Seq<char>) -> Seq<char>
    recommends
        key.len() > 0,
{
    text_of(decode_spec(encode_utf8(encrypted), encode_utf8(key)))
}

/// Decrypting what was encrypted under the same key gives the text back,
/// for every key that holds a character.
pub proof fn lemma_decrypt_inverts_encrypt(text: Seq<char>, key: Seq<char>)
    requires
        key.len() > 0,
    ensures
        decrypt_spec(encrypt_spec(text, key), key) == text,
{
    lemma_empty_text_has_no_bytes(key);
    lemma_decode_inverts_encode(encode_utf8(text), encode_utf8(key));
    lemma_text_of_bytes(text);
}

/// A vault in memory: the records, the digest of the master passphrase and
/// the name of the file that persists the records.
pub struct PasswordManager {
    entries: RecordStore,
    master_password_hash: String,
    filename: String,
}

impl PasswordManager {
    /// The record store.
    pub closed spec fn store(&self) -> RecordStore {
        self.entries
    }

    /// The records, in the order in which their services first came in.
    pub open spec fn records(&self) -> Seq<EntryView> {
        self.store().records()
    }

    /// The digest of the master passphrase; empty while none is set.
    pub closed spec fn master_hash(&self) -> Seq<char> {
        self.master_password_hash@
    }

    /// The name of the vault file.
    pub closed spec fn vault_file(&self) -> Seq<char> {
        self.filename@
    }

    /// A manager for the vault file `filename`, with no record and no
    /// master digest.
    pub fn new(filename: String) -> (manager: PasswordManager)
        ensures
            manager.records() == Seq::<EntryView>::empty(),
            manager.store()@ == Map::<Seq<char>, EntryView>::empty(),
            manager.master_hash() == Seq::<char>::empty(),
            manager.vault_file() == filename@,
    {
        PasswordManager {
            entries: RecordStore::new(),
            master_password_hash: String::new(),
            filename,
        }
    }

    /// The name of the vault file.
    pub fn filename(&self) -> (name: &str)
        ensures
            name@ == self.vault_file(),
    {
        self.filename.as_str()
    }

    /// The digest of the master passphrase; empty while none is set.
    pub fn master_password_hash(&self) -> (hash: &str)
        ensures
            hash@ == self.master_hash(),
    {
        self.master_password_hash.as_str()
    }

    /// The digest of `password`.
    pub fn hash_password(password: &str) -> (hash: String)
        ensures
            hash@ == digest_text(password.spec_bytes()),
            hash@.len() == 64,
    {
        digest(password.as_bytes())
    }

    /// Encodes `text` under `key`.
    pub fn simple_encrypt(text: &str, key: &str) -> (r: Result<String, VaultError>)
        ensures
            r is Err <==> key@.len() == 0,
            r matches Err(e) ==> e == VaultError::InvalidKey,
            r matches Ok(encrypted) ==> encrypted@ == encrypt_spec(text@, key@),
    {
        proof {
            lemma_empty_text_has_no_bytes(key@);
        }
        encode(text.as_bytes(), key.as_bytes())
    }

    /// Decodes `encrypted` under `key` and reads the bytes as text. Groups
    /// that are not two hexadecimal digits are dropped, and bytes that are
    /// not valid UTF-8 are read lossily.
    pub fn simple_decrypt(encrypted: &str, key: &str) -> (r: Result<String, VaultError>)
        ensures
            r is Err <==> key@.len() == 0,
            r matches Err(e) ==> e == VaultError::InvalidKey,
            r matches Ok(text) ==> text@ == decrypt_spec(encrypted@, key@),
    {
        proof {
            lemma_empty_text_has_no_bytes(key@);
        }
        match decode(encrypted, key.as_bytes()) {
            Ok(bytes) => Ok(text_from_bytes(bytes.as_slice())),
            Err(e) => Err(e),
        }
    }

    /// Sets the master digest to the digest of `password` and hands the
    /// digest out, for the caller to persist.
    pub fn setup_master_password(&mut self, password: &str) -> (hash: String)
        ensures
            hash@ == digest_text(password.spec_bytes()),
            final(self).master_hash() == digest_text(password.spec_bytes()),
            final(self).store() == old(self).store(),
            final(self).vault_file() == old(self).vault_file(),
    {
        let hash = digest(password.as_bytes());
        self.master_password_hash = hash.clone();
        hash
    }

    /// Whether `password` is the master passphrase: whether its digest is
    /// the master digest. While no digest is set, no passphrase is.
    pub fn verify_master_password(&self, password: &str) -> (ok: bool)
        ensures
            ok == verify_spec(password.spec_bytes(), self.master_hash()),
            self.master_hash().len() != 64 ==> !ok,
    {
        verify(password.as_bytes(), self.master_password_hash.as_str())
    }

    /// Takes over the digest that was found persisted, if one was, and says
    /// whether one was. Without one the manager stays as it was: it is in
    /// its first run.
    pub fn load_master_hash(&mut self, stored: Option<String>) -> (loaded: bool)
        ensures
            loaded == stored is Some,
            stored matches Some(hash) ==> final(self).master_hash() == hash@,
            stored is None ==> final(self).master_hash() == old(self).master_hash(),
            final(self).store() == old(self).store(),
            final(self).vault_file() == old(self).vault_file(),
    {
        match stored {
            Some(hash) => {
                self.master_password_hash = hash;
                true
            },
            None => false,
        }
    }

    /// Puts a record in for `service`. A record already held for that
    /// service is replaced and lost.
    pub fn add_entry(&mut self, service: String, username: String, password: String)
        ensures
            final(self).records() == upsert_records(
                old(self).records(),
                EntryView { service: service@, username: username@, password: password@ },
            ),
            final(self).store()@ == old(self).store()@.insert(
                service@,
                EntryView { service: service@, username: username@, password: password@ },
            ),
            final(self).master_hash() == old(self).master_hash(),
            final(self).vault_file() == old(self).vault_file(),
    {
        self.entries.upsert(service, username, password);
    }

    /// The record held for `service`, if there is one.
    pub fn get_entry(&self, service: &str) -> (found: Option<&PasswordEntry>)
        ensures
            found is Some <==> self.store()@.contains_key(service@),
            found matches Some(entry) ==> entry@ == self.store()@[service@] && entry@.service
                == service@,
    {
        self.entries.get(service)
    }

    /// Removes the record held for `service` and says whether there was one.
    /// Without one the records stay as they were.
    pub fn delete_entry(&mut self, service: &str) -> (removed: bool)
        ensures
            removed == old(self).store()@.contains_key(service@),
            final(self).records() == delete_records(old(self).records(), service@),
            final(self).store()@ == old(self).store()@.remove(service@),
            !removed ==> final(self).records() == old(self).records(),
            final(self).master_hash() == old(self).master_hash(),
            final(self).vault_file() == old(self).vault_file(),
    {
        self.entries.delete(service)
    }

    /// The service and the username of every record, in the order of the
    /// records. No password is handed out.
    pub fn list_services(&self) -> (pairs: Vec<(String, String)>)
        ensures
            pair_texts(pairs@) == listing(self.records()),
    {
        self.entries.list()
    }

    /// The number of records.
    pub fn entry_count(&self) -> (n: usize)
        ensures
            n == self.records().len(),
    {
        self.entries.len()
    }

    /// The lines of the vault file: one for each record, in the order of the
    /// records, each password encoded under `master_password`.
    pub fn save_lines(&self, master_password: &str) -> (r: Result<Vec<String>, VaultError>)
        ensures
            r is Err <==> master_password@.len() == 0,
            r matches Err(e) ==> e == VaultError::InvalidKey,
            r matches Ok(lines) ==> line_texts(lines@) == lines_of(
                self.records(),
                master_password.spec_bytes(),
            ),
    {
        proof {
            lemma_empty_text_has_no_bytes(master_password@);
        }
        crate::vault::save_lines(&self.entries, master_password.as_bytes())
    }

    /// Puts in the record of every line of the vault file that holds one,
    /// each password decoded under `master_password`. A line that does not
    /// hold exactly three fields is passed over.
    pub fn load_lines(&mut self, lines: &Vec<String>, master_password: &str) -> (r: Result<
        (),
        VaultError,
    >)
        ensures
            r is Err <==> master_password@.len() == 0,
            r matches Err(e) ==> e == VaultError::InvalidKey && final(self).records() == old(
                self,
            ).records(),
            r is Ok ==> final(self).records() == load_records(
                old(self).records(),
                line_texts(lines@),
                master_password.spec_bytes(),
            ),
            final(self).master_hash() == old(self).master_hash(),
            final(self).vault_file() == old(self).vault_file(),
    {
        proof {
            lemma_empty_text_has_no_bytes(master_password@);
        }
        crate::vault::load_lines(&mut self.entries, lines, master_password.as_bytes())
    }

    /// Makes a password of `length` characters, each drawn at random from
    /// the alphabet.
    pub fn generate_password(length: usize) -> (password: String)
        ensures
            password@.len() == length,
            forall|i: int| 0 <= i < length ==> alphabet().contains(#[trigger] password@[i]),
    {
        crate::generator::generate_password(length)
    }
}

} // verus!
