//! The persisted form of the store: one line for each record, made of the
//! service, the username and the encoded password with a delimiter between
//! them.
//!
//! Nothing escapes the delimiter. A service or a username that holds it
//! gives a line that is not read back as the record it came from.

use crate::error::VaultError;
use crate::hex::hex_text;
use crate::hex::lemma_hex_digit_value;
use crate::store::distinct_services;
use crate::store::holds_service;
use crate::store::lemma_upsert_records;
use crate::store::upsert_records;
use crate::store::EntryView;
use crate::store::PasswordEntry;
use crate::store::RecordStore;
use crate::text::lemma_text_of_bytes;
use crate::text::text_from_bytes;
use crate::text::text_of;
use crate::transform::decode;
use crate::transform::decode_spec;
use crate::transform::encode;
use crate::transform::encode_spec;
use crate::transform::lemma_decode_inverts_encode;
use crate::transform::xor_with_key;
use vstd::prelude::*;
use vstd::string::StrSliceExecFns;
use vstd::string::StringExecFns;
use vstd::utf8::encode_utf8;

verus! {

/// The character that parts the fields of a line.
pub const DELIMITER: char = '|';

/// The line that holds `entry`, its password encoded under `key`.
pub open spec fn entry_line(entry: EntryView, key: Seq<u8>) -> Seq<char>
    recommends
        key.len() > 0,
{
    entry.service + seq![DELIMITER] + entry.username + seq![DELIMITER] + encode_spec(
        encode_utf8(entry.password),
        key,
    )
}

/// The lines that hold `records`, one for each in their order.
pub open spec fn lines_of(records: Seq<EntryView>, key: Seq<u8>) -> Seq<Seq<char>>
    recommends
        key.len() > 0,
{
    Seq::new(records.len(), |i: int| entry_line(records[i], key))
}

/// The positions in `line` that hold the delimiter, in rising order.
pub open spec fn delimiter_positions(line: Seq<char>) -> Seq<int>
    decreases line.len(),
{
    if line.len() == 0 {
        Seq::empty()
    } else if line.last() == DELIMITER {
        delimiter_positions(line.drop_last()).push(line.len() - 1)
    } else {
        delimiter_positions(line.drop_last())
    }
}

/// The record that `line` holds: a line with exactly two delimiters holds
/// the service before the first, the username between the two, and behind
/// the second the password, encoded under `key`. Any other line holds none.
pub open spec fn parse_line_spec(line: Seq<char>, key: Seq<u8>) -> Option<EntryView>
    recommends
        key.len() > 0,
{
    let at = delimiter_positions(line);
    if at.len() == 2 {
        Some(
            EntryView {
                service: line.subrange(0, at[0]),
                username: line.subrange(at[0] + 1, at[1]),
                password: text_of(
                    decode_spec(encode_utf8(line.subrange(at[1] + 1, line.len() as int)), key),
                ),
            },
        )
    } else {
        None
    }
}

/// `records` after the records that `lines` hold were put in, line by line.
/// A line that holds none is passed over; of two lines for one service the
/// later wins.
pub open spec fn load_records(
    records: Seq<EntryView>,
    lines: Seq<Seq<char>>,
    key: Seq<u8>,
) -> Seq<EntryView>
    recommends
        key.len() > 0,
    decreases lines.len(),
{
    if lines.len() == 0 {
        records
    } else {
        let before = load_records(records, lines.drop_last(), key);
        match parse_line_spec(lines.last(), key) {
            Some(entry) => upsert_records(before, entry),
            None => before,
        }
    }
}

/// The texts of `lines`.
pub open spec fn line_texts(lines: Seq<String>) -> Seq<Seq<char>> {
    Seq::new(lines.len(), |i: int| lines[i]@)
}

/// Whether `text` holds the delimiter.
pub open spec fn holds_delimiter(text: Seq<char>) -> bool {
    exists|i: int| 0 <= i < text.len() && text[i] == DELIMITER
}

/// The positions listed are those that hold the delimiter: each lies in the
/// line and holds it, each comes before those listed after it, and every
/// position of the line that holds the delimiter is listed.
pub proof fn lemma_delimiter_positions(line: Seq<char>)
    ensures
        forall|k: int|
            0 <= k < delimiter_positions(line).len() ==> 0 <= (#[trigger] delimiter_positions(
                line,
            )[k]) < line.len() && line[delimiter_positions(line)[k]] == DELIMITER,
        forall|k: int, l: int|
            0 <= k < l < delimiter_positions(line).len() ==> delimiter_positions(line)[k]
                < delimiter_positions(line)[l],
        forall|i: int|
            0 <= i < line.len() && line[i] == DELIMITER ==> delimiter_positions(line).contains(i),
    decreases line.len(),
{
    if line.len() > 0 {
        let shorter = line.drop_last();
        let listed = delimiter_positions(line);
        lemma_delimiter_positions(shorter);
        assert forall|i: int| 0 <= i < line.len() && line[i] == DELIMITER implies listed.contains(
            i,
        ) by {
            if i < shorter.len() {
                assert(shorter[i] == line[i]);
                let k = choose|k: int|
                    0 <= k < delimiter_positions(shorter).len() && delimiter_positions(shorter)[k]
                        == i;
                assert(listed[k] == i);
            } else {
                assert(listed[listed.len() - 1] == i);
            }
        }
    }
}

/// Text without a delimiter, put behind a line, adds no position.
proof fn lemma_positions_of_plain_tail(line: Seq<char>, tail: Seq<char>)
    requires
        !holds_delimiter(tail),
    ensures
        delimiter_positions(line + tail) == delimiter_positions(line),
    decreases tail.len(),
{
    if tail.len() > 0 {
        let shorter = tail.drop_last();
        assert forall|i: int| 0 <= i < shorter.len() implies shorter[i] != DELIMITER by {}
        lemma_positions_of_plain_tail(line, shorter);
        assert((line + tail).drop_last() =~= line + shorter);
    }
}

/// No digit of a hexadecimal text is the delimiter.
proof fn lemma_hex_text_is_plain(bytes: Seq<u8>)
    ensures
        !holds_delimiter(hex_text(bytes)),
{
    let text = hex_text(bytes);
    assert forall|i: int| 0 <= i < text.len() implies text[i] != DELIMITER by {
        let n: int = if i % 2 == 0 {
            bytes[i / 2] as int / 16
        } else {
            bytes[i / 2] as int % 16
        };
        lemma_hex_digit_value(n);
    }
}

/// A line read back under the key that encoded it holds the record it was
/// made of, provided that neither the service nor the username holds the
/// delimiter.
pub proof fn lemma_parse_inverts_format(entry: EntryView, key: Seq<u8>)
    requires
        key.len() > 0,
        !holds_delimiter(entry.service),
        !holds_delimiter(entry.username),
    ensures
        parse_line_spec(entry_line(entry, key), key) == Some(entry),
{
    let hex = encode_spec(encode_utf8(entry.password), key);
    let a = entry.service;
    let b = a + seq![DELIMITER];
    let c = b + entry.username;
    let d = c + seq![DELIMITER];
    let line = d + hex;
    lemma_positions_of_plain_tail(Seq::empty(), a);
    assert(b.drop_last() =~= a);
    lemma_positions_of_plain_tail(b, entry.username);
    assert(d.drop_last() =~= c);
    lemma_hex_text_is_plain(xor_with_key(encode_utf8(entry.password), key));
    lemma_positions_of_plain_tail(d, hex);
    let at = delimiter_positions(line);
    assert(line.subrange(0, at[0]) =~= entry.service);
    assert(line.subrange(at[0] + 1, at[1]) =~= entry.username);
    assert(line.subrange(at[1] + 1, line.len() as int) =~= hex);
    lemma_decode_inverts_encode(encode_utf8(entry.password), key);
    lemma_text_of_bytes(entry.password);
}

/// A line that does not hold exactly two delimiters changes nothing when
/// it is loaded.
pub proof fn lemma_load_skips_malformed(
    records: Seq<EntryView>,
    lines: Seq<Seq<char>>,
    line: Seq<char>,
    key: Seq<u8>,
)
    requires
        delimiter_positions(line).len() != 2,
    ensures
        load_records(records, lines.push(line), key) == load_records(records, lines, key),
{
    assert(lines.push(line).drop_last() =~= lines);
}

/// Loading keeps the services distinct.
pub proof fn lemma_load_records_distinct(
    records: Seq<EntryView>,
    lines: Seq<Seq<char>>,
    key: Seq<u8>,
)
    requires
        distinct_services(records),
    ensures
        distinct_services(load_records(records, lines, key)),
    decreases lines.len(),
{
    if lines.len() > 0 {
        lemma_load_records_distinct(records, lines.drop_last(), key);
        match parse_line_spec(lines.last(), key) {
            Some(entry) => {
                lemma_upsert_records(load_records(records, lines.drop_last(), key), entry);
            },
            None => {},
        }
    }
}

/// Lines written under a key and loaded into an empty store under the same
/// key give the records back, each in its place, provided that the services
/// are distinct and that no service and no username holds the delimiter.
pub proof fn lemma_load_inverts_save(records: Seq<EntryView>, key: Seq<u8>)
    requires
        key.len() > 0,
        distinct_services(records),
        forall|i: int|
            0 <= i < records.len() ==> !holds_delimiter((#[trigger] records[i]).service)
                && !holds_delimiter(records[i].username),
    ensures
        load_records(Seq::empty(), lines_of(records, key), key) == records,
    decreases records.len(),
{
    let lines = lines_of(records, key);
    if records.len() > 0 {
        let shorter = records.drop_last();
        let last = records.last();
        assert(lines.drop_last() =~= lines_of(shorter, key));
        assert forall|i: int| 0 <= i < shorter.len() implies !holds_delimiter(
            (#[trigger] shorter[i]).service,
        ) && !holds_delimiter(shorter[i].username) by {}
        assert forall|i: int, j: int| 0 <= i < j < shorter.len() implies (
        #[trigger] shorter[i]).service != (#[trigger] shorter[j]).service by {}
        lemma_load_inverts_save(shorter, key);
        lemma_parse_inverts_format(last, key);
        assert(!holds_service(shorter, last.service));
    }
}

/// Writes the line that holds `entry`, its password encoded under `key`.
pub fn format_line(entry: &PasswordEntry, key: &[u8]) -> (r: Result<String, VaultError>)
    ensures
        r is Err <==> key@.len() == 0,
        r matches Err(e) ==> e == VaultError::InvalidKey,
        r matches Ok(line) ==> line@ == entry_line(entry@, key@),
{
    let hex = match encode(entry.password.as_str().as_bytes(), key) {
        Ok(hex) => hex,
        Err(e) => {
            return Err(e);
        },
    };
    proof {
        reveal_strlit("|");
    }
    let mut line = entry.service.clone();
    line.append("|");
    line.append(entry.username.as_str());
    line.append("|");
    line.append(hex.as_str());
    Ok(line)
}

/// Reads the record that `line` holds, its password decoded under `key`.
/// A line that does not hold exactly three fields gives `None`.
pub fn parse_line(line: &str, key: &[u8]) -> (r: Result<Option<PasswordEntry>, VaultError>)
    ensures
        r is Err <==> key@.len() == 0,
        r matches Err(e) ==> e == VaultError::InvalidKey,
        r matches Ok(Some(entry)) ==> parse_line_spec(line@, key@) == Some(entry@),
        r matches Ok(None) ==> parse_line_spec(line@, key@) is None,
{
    if key.len() == 0 {
        return Err(VaultError::InvalidKey);
    }
    let total: usize = line.unicode_len();
    let mut first: usize = 0;
    let mut second: usize = 0;
    let mut count: usize = 0;
    let mut i: usize = 0;
    for c in it: line.chars()
        invariant
            it.seq() == line@,
            total == line@.len(),
            i == it.index(),
            count <= i,
            count == delimiter_positions(line@.take(i as int)).len(),
            count >= 1 ==> first == delimiter_positions(line@.take(i as int))[0] && first < i,
            count >= 2 ==> second == delimiter_positions(line@.take(i as int))[1] && first
                < second < i,
    {
        assert(line@.take(i as int + 1).drop_last() =~= line@.take(i as int));
        if c == DELIMITER {
            if count == 0 {
                first = i;
            } else if count == 1 {
                second = i;
            }
            count = count + 1;
        }
        i = i + 1;
    }
    assert(line@.take(i as int) =~= line@);
    if count != 2 {
        return Ok(None);
    }
    let service = line.substring_char(0, first).to_owned();
    let username = line.substring_char(first + 1, second).to_owned();
    let hex = line.substring_char(second + 1, total);
    let password = match decode(hex, key) {
        Ok(bytes) => text_from_bytes(bytes.as_slice()),
        Err(e) => {
            return Err(e);
        },
    };
    Ok(Some(PasswordEntry { service, username, password }))
}

/// Writes every record of `store` as a line, in the order of its records,
/// each password encoded under `key`.
pub fn save_lines(store: &RecordStore, key: &[u8]) -> (r: Result<Vec<String>, VaultError>)
    ensures
        r is Err <==> key@.len() == 0,
        r matches Err(e) ==> e == VaultError::InvalidKey,
        r matches Ok(lines) ==> line_texts(lines@) == lines_of(store.records(), key@),
{
    if key.len() == 0 {
        return Err(VaultError::InvalidKey);
    }
    let mut lines: Vec<String> = Vec::new();
    let mut i: usize = 0;
    while i < store.len()
        invariant
            i <= store.records().len(),
            key@.len() > 0,
            lines@.len() == i,
            forall|j: int| 0 <= j < i ==> (#[trigger] lines@[j])@ == entry_line(
                store.records()[j],
                key@,
            ),
        decreases store.records().len() - i,
    {
        match format_line(store.entry_at(i), key) {
            Ok(line) => {
                lines.push(line);
            },
            Err(e) => {
                return Err(e);
            },
        }
        i = i + 1;
    }
    Ok(lines)
}

/// Puts into `store` the record of every line that holds one, line by line,
/// each password decoded under `key`. With an empty key nothing is read and
/// the store stays as it was.
pub fn load_lines(store: &mut RecordStore, lines: &Vec<String>, key: &[u8]) -> (r: Result<
    (),
    VaultError,
>)
    ensures
        r is Err <==> key@.len() == 0,
        r matches Err(e) ==> e == VaultError::InvalidKey && final(store).records() == old(
            store,
        ).records(),
        r is Ok ==> final(store).records() == load_records(
            old(store).records(),
            line_texts(lines@),
            key@,
        ),
{
    if key.len() == 0 {
        return Err(VaultError::InvalidKey);
    }
    let ghost before = store.records();
    let ghost texts = line_texts(lines@);
    let mut i: usize = 0;
    while i < lines.len()
        invariant
            i <= lines.len(),
            key@.len() > 0,
            texts == line_texts(lines@),
            store.records() == load_records(before, texts.take(i as int), key@),
        decreases lines.len() - i,
    {
        assert(texts.take(i as int + 1).drop_last() =~= texts.take(i as int));
        match parse_line(lines[i].as_str(), key) {
            Ok(Some(entry)) => {
                store.upsert(entry.service, entry.username, entry.password);
            },
            Ok(None) => {},
            Err(e) => {
                return Err(e);
            },
        }
        i = i + 1;
    }
    assert(texts.take(i as int) =~= texts);
    Ok(())
}

} // verus!
