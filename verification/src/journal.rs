//! The recovery journal: one row of text for each function that was taken from
//! its driver.
use crate::fingerprint::{
    collected, field_of, identity_check, validate_identity, Identity, IdentityModel,
};
use crate::identity::{token, token_char, unescape_all};
use crate::sorting::views;
use crate::text::{
    byte_len, chomped, either, is_hex, join, lines, lines_of, same, split, split_by,
    split_inverts_join, split_on, texts, utf8_len,
};
use vstd::prelude::*;

verus! {

pub const MAX_JOURNAL_BYTES: usize = 1048576;

/// A row: three fields separated by tabs.
pub open spec fn row_text(identity: IdentityModel) -> Seq<char> {
    identity.stable_id + "\t"@ + identity.instance_id + "\t"@ + identity.fingerprint
}

/// The identity of a row, where it has three fields and passes the checks.
pub open spec fn row_identity(line: Seq<char>) -> Result<IdentityModel, Seq<char>> {
    let parts = split(line, '\t');
    if parts.len() != 3 {
        Err("malformed Linux recovery journal row"@)
    } else {
        let identity = IdentityModel {
            platform: "linux"@,
            stable_id: parts[0],
            instance_id: parts[1],
            fingerprint: parts[2],
        };
        match identity_check(identity) {
            Err(e) => Err(e),
            Ok(_) => Ok(identity),
        }
    }
}

pub open spec fn holds(records: Seq<IdentityModel>, stable_id: Seq<char>) -> bool {
    exists|i: int| 0 <= i < records.len() && (#[trigger] records[i]).stable_id == stable_id
}

/// The identities of the rows; no identity may come twice.
pub open spec fn rows(list: Seq<Seq<char>>) -> Result<Seq<IdentityModel>, Seq<char>>
    decreases list.len(),
{
    if list.len() == 0 {
        Ok(Seq::empty())
    } else {
        match rows(list.drop_last()) {
            Err(e) => Err(e),
            Ok(records) => match row_identity(list.last()) {
                Err(e) => Err(e),
                Ok(identity) => if holds(records, identity.stable_id) {
                    Err("duplicate Linux recovery journal identity"@)
                } else {
                    Ok(records.push(identity))
                },
            },
        }
    }
}

/// The records of a journal.
pub open spec fn journal_records(contents: Seq<char>) -> Result<Seq<IdentityModel>, Seq<char>> {
    if utf8_len(contents) > MAX_JOURNAL_BYTES {
        Err("Linux recovery journal is oversized"@)
    } else {
        rows(lines(contents))
    }
}

/// The text of a journal: each row ends in a line feed.
pub open spec fn journal_text(records: Seq<IdentityModel>) -> Seq<char>
    decreases records.len(),
{
    if records.len() == 0 {
        Seq::empty()
    } else {
        journal_text(records.drop_last()) + row_text(records.last()) + "\n"@
    }
}

/// The first error among the records, where there is one.
pub open spec fn first_invalid(records: Seq<IdentityModel>) -> Option<Seq<char>>
    decreases records.len(),
{
    if records.len() == 0 {
        None
    } else {
        match identity_check(records[0]) {
            Err(e) => Some(e),
            Ok(_) => first_invalid(records.drop_first()),
        }
    }
}

pub open spec fn written(records: Seq<IdentityModel>) -> Result<Seq<char>, Seq<char>> {
    match first_invalid(records) {
        Some(e) => Err(e),
        None => Ok(journal_text(records)),
    }
}

pub open spec fn found(records: Seq<IdentityModel>, stable_id: Seq<char>) -> Option<IdentityModel>
    decreases records.len(),
{
    if records.len() == 0 {
        None
    } else if records[0].stable_id == stable_id {
        Some(records[0])
    } else {
        found(records.drop_first(), stable_id)
    }
}

pub open spec fn without(records: Seq<IdentityModel>, stable_id: Seq<char>) -> Seq<IdentityModel>
    decreases records.len(),
{
    if records.len() == 0 {
        records
    } else if records.last().stable_id == stable_id {
        without(records.drop_last(), stable_id)
    } else {
        without(records.drop_last(), stable_id).push(records.last())
    }
}

/// The new contents of the journal after an identity is added; nothing where
/// it stands there already.
pub open spec fn journal_added(contents: Seq<char>, identity: IdentityModel) -> Result<
    Option<Seq<char>>,
    Seq<char>,
> {
    match identity_check(identity) {
        Err(e) => Err(e),
        Ok(_) => match journal_records(contents) {
            Err(e) => Err(e),
            Ok(records) => match found(records, identity.stable_id) {
                Some(existing) => if existing != identity {
                    Err("Linux recovery journal identity conflict"@)
                } else {
                    Ok(None)
                },
                None => match written(records.push(identity)) {
                    Err(e) => Err(e),
                    Ok(text) => Ok(Some(text)),
                },
            },
        },
    }
}

/// The new contents of the journal after an identity is removed; nothing where
/// it does not stand there.
pub open spec fn journal_removed(contents: Seq<char>, identity: IdentityModel) -> Result<
    Option<Seq<char>>,
    Seq<char>,
> {
    match identity_check(identity) {
        Err(e) => Err(e),
        Ok(_) => match journal_records(contents) {
            Err(e) => Err(e),
            Ok(records) => if !holds(records, identity.stable_id) {
                Ok(None)
            } else {
                match written(without(records, identity.stable_id)) {
                    Err(e) => Err(e),
                    Ok(text) => Ok(Some(text)),
                }
            },
        },
    }
}

pub open spec fn records_result(r: Result<Vec<Identity>, String>) -> Result<
    Seq<IdentityModel>,
    Seq<char>,
> {
    match r {
        Ok(records) => Ok(views(records@)),
        Err(e) => Err(e@),
    }
}

pub open spec fn contents_result(r: Result<Option<String>, String>) -> Result<
    Option<Seq<char>>,
    Seq<char>,
> {
    match r {
        Ok(Some(text)) => Ok(Some(text@)),
        Ok(None) => Ok(None),
        Err(e) => Err(e@),
    }
}

fn read_row(line: &str) -> (r: Result<Identity, String>)
    ensures
        (match r {
            Ok(identity) => Ok(identity@),
            Err(e) => Err(e@),
        }) == row_identity(line@),
{
    let parts = split_on(line, '\t');
    let ghost pieces = split(line@, '\t');
    assert(pieces.len() == parts@.len());
    if parts.len() != 3 {
        return Err("malformed Linux recovery journal row".to_owned());
    }
    assert(pieces[0] == parts@[0]@ && pieces[1] == parts@[1]@ && pieces[2] == parts@[2]@);
    let identity = Identity {
        platform: "linux".to_owned(),
        stable_id: parts[0].clone(),
        instance_id: parts[1].clone(),
        fingerprint: parts[2].clone(),
    };
    validate_identity(&identity)?;
    Ok(identity)
}

fn has_record(records: &Vec<Identity>, stable_id: &str) -> (r: bool)
    ensures
        r == holds(views(records@), stable_id@),
{
    let ghost all = views(records@);
    let mut i: usize = 0;
    while i < records.len()
        invariant
            i <= records@.len(),
            all == views(records@),
            forall|j: int| 0 <= j < i ==> (#[trigger] all[j]).stable_id != stable_id@,
        decreases records@.len() - i,
    {
        assert(all[i as int] == records@[i as int]@);
        if same(records[i].stable_id.as_str(), stable_id) {
            return true;
        }
        i += 1;
    }
    false
}

proof fn lemma_rows_prefix(list: Seq<Seq<char>>, i: int)
    requires
        0 <= i <= list.len(),
        rows(list.take(i)) is Err,
    ensures
        rows(list) == rows(list.take(i)),
    decreases list.len() - i,
{
    if i < list.len() {
        assert(list.take(i + 1).drop_last() == list.take(i));
        lemma_rows_prefix(list, i + 1);
    } else {
        assert(list.take(i) == list);
    }
}

/// The records of a journal file's contents.
pub fn journal_read_locked(contents: &str) -> (r: Result<Vec<Identity>, String>)
    ensures
        records_result(r) == journal_records(contents@),
{
    if byte_len(contents) > MAX_JOURNAL_BYTES {
        return Err("Linux recovery journal is oversized".to_owned());
    }
    let list = lines_of(contents);
    let ghost all = lines(contents@);
    let mut records: Vec<Identity> = Vec::new();
    let mut i: usize = 0;
    assert(all.take(0).len() == 0);
    assert(views(records@) == Seq::<IdentityModel>::empty());
    while i < list.len()
        invariant
            i <= list@.len(),
            all == texts(list@),
            all == lines(contents@),
            utf8_len(contents@) <= MAX_JOURNAL_BYTES,
            rows(all.take(i as int)) == Ok::<Seq<IdentityModel>, Seq<char>>(views(records@)),
        decreases list@.len() - i,
    {
        proof {
            assert(all.take(i + 1).drop_last() == all.take(i as int));
            assert(all.take(i + 1).last() == list@[i as int]@);
            if rows(all.take(i + 1)) is Err {
                lemma_rows_prefix(all, i + 1);
            }
        }
        let identity = match read_row(list[i].as_str()) {
            Ok(identity) => identity,
            Err(error) => {
                return Err(error);
            },
        };
        if has_record(&records, identity.stable_id.as_str()) {
            return Err("duplicate Linux recovery journal identity".to_owned());
        }
        let ghost held = views(records@);
        records.push(identity);
        assert(views(records@) == held.push(identity@));
        i += 1;
    }
    assert(all.take(i as int) == all);
    Ok(records)
}

proof fn lemma_first_invalid_at(records: Seq<IdentityModel>, i: int)
    requires
        0 <= i < records.len(),
        identity_check(records[i]) is Err,
        forall|j: int| 0 <= j < i ==> identity_check(#[trigger] records[j]) is Ok,
    ensures
        first_invalid(records) == Some(identity_check(records[i])->Err_0),
    decreases i,
{
    if i > 0 {
        assert(identity_check(records[0]) is Ok);
        let rest = records.drop_first();
        assert forall|j: int| 0 <= j < i - 1 implies identity_check(#[trigger] rest[j]) is Ok by {
            assert(rest[j] == records[j + 1]);
        }
        assert(rest[i - 1] == records[i]);
        lemma_first_invalid_at(rest, i - 1);
    }
}

proof fn lemma_all_valid(records: Seq<IdentityModel>)
    requires
        forall|j: int| 0 <= j < records.len() ==> identity_check(#[trigger] records[j]) is Ok,
    ensures
        first_invalid(records) is None,
    decreases records.len(),
{
    if records.len() > 0 {
        assert(identity_check(records[0]) is Ok);
        let rest = records.drop_first();
        assert forall|j: int| 0 <= j < rest.len() implies identity_check(
            #[trigger] rest[j],
        ) is Ok by {
            assert(rest[j] == records[j + 1]);
        }
        lemma_all_valid(rest);
    }
}

fn row_of(record: &Identity) -> (r: String)
    ensures
        r@ == row_text(record@),
{
    let mut out: String = record.stable_id.clone();
    out.append("\t");
    out.append(record.instance_id.as_str());
    out.append("\t");
    out.append(record.fingerprint.as_str());
    assert(out@ == row_text(record@));
    out
}

/// The contents of a journal file for the given records.
pub fn journal_write(records: &[Identity]) -> (r: Result<String, String>)
    ensures
        (match r {
            Ok(text) => Ok(text@),
            Err(e) => Err(e@),
        }) == written(views(records@)),
{
    let ghost all = views(records@);
    let mut out: String = String::new();
    let mut i: usize = 0;
    assert(all.take(0).len() == 0);
    while i < records.len()
        invariant
            i <= records@.len(),
            all == views(records@),
            out@ == journal_text(all.take(i as int)),
            forall|j: int| 0 <= j < i ==> identity_check(#[trigger] all[j]) is Ok,
        decreases records@.len() - i,
    {
        assert(all.take(i + 1).drop_last() == all.take(i as int));
        assert(all.take(i + 1).last() == records@[i as int]@);
        assert(all[i as int] == records@[i as int]@);
        let record = &records[i];
        match validate_identity(record) {
            Ok(_) => {},
            Err(error) => {
                proof {
                    lemma_first_invalid_at(all, i as int);
                }
                return Err(error);
            },
        }
        out.append(row_of(record).as_str());
        out.append("\n");
        i += 1;
    }
    assert(all.take(i as int) == all);
    proof {
        lemma_all_valid(all);
    }
    Ok(out)
}

pub(crate) fn find_record<'a>(records: &'a Vec<Identity>, stable_id: &str) -> (r: Option<&'a Identity>)
    ensures
        (match r {
            Some(identity) => Some(identity@),
            None => None,
        }) == found(views(records@), stable_id@),
{
    let ghost all = views(records@);
    let mut i: usize = 0;
    assert(all.skip(0) == all);
    while i < records.len()
        invariant
            i <= records@.len(),
            all == views(records@),
            found(all, stable_id@) == found(all.skip(i as int), stable_id@),
        decreases records@.len() - i,
    {
        assert(all.skip(i as int)[0] == records@[i as int]@);
        assert(all.skip(i as int).drop_first() == all.skip(i + 1));
        if same(records[i].stable_id.as_str(), stable_id) {
            return Some(&records[i]);
        }
        i += 1;
    }
    None
}

pub fn journal_add_locked(contents: &str, identity: &Identity) -> (r: Result<
    Option<String>,
    String,
>)
    ensures
        contents_result(r) == journal_added(contents@, identity@),
{
    validate_identity(identity)?;
    let mut records = journal_read_locked(contents)?;
    match find_record(&records, identity.stable_id.as_str()) {
        Some(existing) => {
            if !existing.equals(identity) {
                return Err("Linux recovery journal identity conflict".to_owned());
            }
            return Ok(None);
        },
        None => {},
    }
    let ghost held = views(records@);
    records.push(identity.copy());
    assert(views(records@) == held.push(identity@));
    match journal_write(records.as_slice()) {
        Ok(text) => Ok(Some(text)),
        Err(error) => Err(error),
    }
}

pub fn journal_remove_locked(contents: &str, identity: &Identity) -> (r: Result<
    Option<String>,
    String,
>)
    ensures
        contents_result(r) == journal_removed(contents@, identity@),
{
    validate_identity(identity)?;
    let records = journal_read_locked(contents)?;
    if !has_record(&records, identity.stable_id.as_str()) {
        return Ok(None);
    }
    let ghost all = views(records@);
    let mut kept: Vec<Identity> = Vec::new();
    let mut i: usize = 0;
    assert(all.take(0).len() == 0);
    assert(views(kept@) == Seq::<IdentityModel>::empty());
    while i < records.len()
        invariant
            i <= records@.len(),
            all == views(records@),
            views(kept@) == without(all.take(i as int), identity.stable_id@),
        decreases records@.len() - i,
    {
        assert(all.take(i + 1).drop_last() == all.take(i as int));
        assert(all.take(i + 1).last() == records@[i as int]@);
        if !same(records[i].stable_id.as_str(), identity.stable_id.as_str()) {
            let ghost held = views(kept@);
            kept.push(records[i].copy());
            assert(views(kept@) == held.push(records@[i as int]@));
        }
        i += 1;
    }
    assert(all.take(i as int) == all);
    match journal_write(kept.as_slice()) {
        Ok(text) => Ok(Some(text)),
        Err(error) => Err(error),
    }
}

// Laws of the journal.
/// Records that a journal can hold: each passes the checks, none comes twice.
pub open spec fn records_ok(records: Seq<IdentityModel>) -> bool {
    &&& forall|i: int|
        0 <= i < records.len() ==> identity_check(#[trigger] records[i]) is Ok
            && records[i].platform == "linux"@
    &&& forall|i: int, j: int|
        0 <= i < j < records.len() ==> (#[trigger] records[i]).stable_id != (
        #[trigger] records[j]).stable_id
}

/// A character that can stand in a field of a row.
pub open spec fn row_char(c: char) -> bool {
    c != '\t' && c != '\n' && c != '\r'
}

pub open spec fn row_chars(s: Seq<char>) -> bool {
    forall|i: int| 0 <= i < s.len() ==> row_char(#[trigger] s[i])
}

proof fn lemma_unescaped_chars(s: Seq<char>)
    requires
        unescape_all(s) is Some,
    ensures
        row_chars(s),
    decreases s.len(),
{
    if s.len() > 0 {
        if s[0] != '%' {
            lemma_unescaped_chars(s.drop_first());
            assert forall|i: int| 0 <= i < s.len() implies row_char(#[trigger] s[i]) by {
                if i > 0 {
                    assert(s[i] == s.drop_first()[i - 1]);
                }
            }
        } else {
            lemma_unescaped_chars(s.skip(3));
            assert forall|i: int| 0 <= i < s.len() implies row_char(#[trigger] s[i]) by {
                if i >= 3 {
                    assert(s[i] == s.skip(3)[i - 3]);
                }
            }
        }
    }
}

proof fn lemma_field_chars(part: Seq<char>)
    requires
        field_of(part) is Some,
    ensures
        row_chars(part),
{
    part.index_of_first_ensures('=');
    let at = part.index_of_first('=')->0;
    let key = part.take(at);
    let value = part.skip(at + 1);
    lemma_unescaped_chars(value);
    assert forall|i: int| 0 <= i < part.len() implies row_char(#[trigger] part[i]) by {
        if i < at {
            assert(token_char(key[i]));
        } else if i > at {
            assert(part[i] == value[i - at - 1]);
        }
    }
}

proof fn lemma_collected_chars(parts: Seq<Seq<char>>)
    requires
        collected(parts) is Some,
    ensures
        forall|i: int| 0 <= i < parts.len() ==> row_chars(#[trigger] parts[i]),
    decreases parts.len(),
{
    if parts.len() > 0 {
        lemma_collected_chars(parts.drop_last());
        lemma_field_chars(parts.last());
        assert forall|i: int| 0 <= i < parts.len() implies row_chars(#[trigger] parts[i]) by {
            if i < parts.len() - 1 {
                assert(parts[i] == parts.drop_last()[i]);
            }
        }
    }
}

/// Where the pieces of a text hold only row characters, and the separator is
/// one, so does the text.
proof fn lemma_pieces_chars(s: Seq<char>, c: char)
    requires
        row_char(c),
        forall|i: int| 0 <= i < split(s, c).len() ==> row_chars(#[trigger] split(s, c)[i]),
    ensures
        row_chars(s),
    decreases s.len(),
{
    if s.len() > 0 {
        let head = s.drop_last();
        let sep = either(c, c);
        let before = split(head, c);
        let after = split(s, c);
        crate::text::lemma_split_nonempty(head, sep);
        let last = before.len() - 1;
        if sep(s.last()) {
            assert forall|i: int| 0 <= i < before.len() implies row_chars(#[trigger] before[i]) by {
                assert(after[i] == before[i]);
            }
        } else {
            assert(after[last] == before[last].push(s.last()));
            assert(row_chars(after[last]));
            assert forall|i: int| 0 <= i < before.len() implies row_chars(#[trigger] before[i]) by {
                if i < last {
                    assert(after[i] == before[i]);
                } else {
                    assert forall|k: int| 0 <= k < before[last].len() implies row_char(
                        #[trigger] before[last][k],
                    ) by {
                        assert(after[last][k] == before[last][k]);
                    }
                }
            }
            assert(row_char(after[last][before[last].len() as int]));
        }
        lemma_pieces_chars(head, c);
        assert forall|i: int| 0 <= i < s.len() implies row_char(#[trigger] s[i]) by {
            if i < head.len() {
                assert(s[i] == head[i]);
            }
        }
    }
}

proof fn lemma_token_chars(s: Seq<char>, prefix: Seq<char>)
    requires
        token(s, prefix),
        row_chars(prefix),
    ensures
        row_chars(s),
{
    assert forall|i: int| 0 <= i < s.len() implies row_char(#[trigger] s[i]) by {
        if i < prefix.len() {
            assert(s[i] == s.take(prefix.len() as int)[i]);
        } else {
            assert(s[i] == s.skip(prefix.len() as int)[i - prefix.len()]);
            assert(is_hex(s.skip(prefix.len() as int)[i - prefix.len()]));
        }
    }
}

/// The fields of an accepted identity hold no tab and no line end.
proof fn lemma_identity_chars(identity: IdentityModel)
    requires
        identity_check(identity) is Ok,
    ensures
        row_chars(identity.stable_id),
        row_chars(identity.instance_id),
        row_chars(identity.fingerprint),
{
    reveal_strlit("linux-controller-");
    reveal_strlit("linux-function-");
    lemma_token_chars(identity.stable_id, "linux-controller-"@);
    lemma_token_chars(identity.instance_id, "linux-function-"@);
    lemma_collected_chars(split(identity.fingerprint, ';'));
    lemma_pieces_chars(identity.fingerprint, ';');
}

proof fn lemma_row_round_trip(identity: IdentityModel)
    requires
        identity_check(identity) is Ok,
        identity.platform == "linux"@,
    ensures
        row_identity(row_text(identity)) == Ok::<IdentityModel, Seq<char>>(identity),
        row_chars_no_line_end(row_text(identity)),
{
    lemma_identity_chars(identity);
    reveal_strlit("\t");
    assert("\t"@ == seq!['\t']);
    let parts = seq![identity.stable_id, identity.instance_id, identity.fingerprint];
    assert forall|i: int| 0 <= i < parts.len() implies !(#[trigger] parts[i]).contains('\t') by {
        if parts[i].contains('\t') {
            let k = choose|k: int| 0 <= k < parts[i].len() && parts[i][k] == '\t';
            assert(row_char(parts[i][k]));
        }
    }
    split_inverts_join(parts, '\t');
    let two = parts.drop_last();
    assert(two == seq![identity.stable_id, identity.instance_id]);
    assert(two.drop_last() == seq![identity.stable_id]);
    assert(join(two, seq!['\t']) == identity.stable_id + seq!['\t'] + identity.instance_id) by {
        assert(join(two.drop_last(), seq!['\t']) == identity.stable_id);
    }
    assert(join(parts, seq!['\t']) == row_text(identity));
    let row = row_text(identity);
    let a = identity.stable_id.len();
    let b = identity.instance_id.len();
    assert forall|i: int| 0 <= i < row.len() implies (#[trigger] row[i]) != '\n' && row[i]
        != '\r' by {
        if i < a {
            assert(row[i] == identity.stable_id[i]);
            assert(row_char(identity.stable_id[i]));
        } else if i > a && i < a + 1 + b {
            assert(row[i] == identity.instance_id[i - a - 1]);
            assert(row_char(identity.instance_id[i - a - 1]));
        } else if i > a + 1 + b {
            assert(row[i] == identity.fingerprint[i - a - b - 2]);
            assert(row_char(identity.fingerprint[i - a - b - 2]));
        }
    }
}

pub open spec fn row_chars_no_line_end(s: Seq<char>) -> bool {
    forall|i: int| 0 <= i < s.len() ==> (#[trigger] s[i]) != '\n' && s[i] != '\r'
}

pub open spec fn row_texts(records: Seq<IdentityModel>) -> Seq<Seq<char>> {
    records.map_values(|identity: IdentityModel| row_text(identity))
}

/// The pieces of a journal between its line feeds: the rows and an empty end.
proof fn lemma_journal_pieces(records: Seq<IdentityModel>)
    requires
        forall|i: int|
            0 <= i < records.len() ==> row_chars_no_line_end(row_text(#[trigger] records[i])),
    ensures
        split(journal_text(records), '\n') == row_texts(records).push(Seq::empty()),
    decreases records.len(),
{
    let sep = either('\n', '\n');
    if records.len() == 0 {
        assert(row_texts(records).push(Seq::<char>::empty()) == seq![Seq::<char>::empty()]);
    } else {
        let head = records.drop_last();
        let row = row_text(records.last());
        reveal_strlit("\n");
        assert("\n"@ == seq!['\n']);
        assert forall|i: int| 0 <= i < head.len() implies row_chars_no_line_end(
            row_text(#[trigger] head[i]),
        ) by {
            assert(head[i] == records[i]);
        }
        lemma_journal_pieces(head);
        assert(row_chars_no_line_end(row_text(records[records.len() - 1])));
        let before = journal_text(head);
        crate::text::lemma_split_extend(before, row, sep);
        assert(journal_text(records) == (before + row).push('\n'));
        assert(journal_text(records).drop_last() == before + row);
        let grown = split_by(before + row, sep);
        assert(grown == row_texts(head).push(row)) by {
            let pieces = row_texts(head).push(Seq::<char>::empty());
            assert(pieces.drop_last() == row_texts(head));
            assert(Seq::<char>::empty() + row == row);
        }
        assert(row_texts(records) == row_texts(head).push(row));
    }
}

proof fn lemma_journal_lines(records: Seq<IdentityModel>)
    requires
        forall|i: int|
            0 <= i < records.len() ==> row_chars_no_line_end(row_text(#[trigger] records[i])),
    ensures
        lines(journal_text(records)) == row_texts(records),
{
    lemma_journal_pieces(records);
    let parts = split(journal_text(records), '\n');
    assert(parts.drop_last() == row_texts(records));
    let ended = parts.drop_last().map_values(|line: Seq<char>| chomped(line));
    assert forall|i: int| 0 <= i < ended.len() implies #[trigger] ended[i] == row_texts(
        records,
    )[i] by {
        let row = row_text(records[i]);
        assert(row_chars_no_line_end(row));
        if row.len() > 0 {
            assert(row[row.len() - 1] != '\r');
        }
    }
    assert(ended == row_texts(records));
}

proof fn lemma_rows_round_trip(records: Seq<IdentityModel>)
    requires
        records_ok(records),
    ensures
        rows(row_texts(records)) == Ok::<Seq<IdentityModel>, Seq<char>>(records),
    decreases records.len(),
{
    if records.len() == 0 {
        assert(records == Seq::<IdentityModel>::empty());
    } else {
        let head = records.drop_last();
        let last = records.last();
        assert(records_ok(head)) by {
            assert forall|i: int| 0 <= i < head.len() implies identity_check(
                #[trigger] head[i],
            ) is Ok && head[i].platform == "linux"@ by {
                assert(head[i] == records[i]);
            }
            assert forall|i: int, j: int| 0 <= i < j < head.len() implies (
            #[trigger] head[i]).stable_id != (#[trigger] head[j]).stable_id by {
                assert(head[i] == records[i]);
                assert(head[j] == records[j]);
            }
        }
        lemma_rows_round_trip(head);
        assert(row_texts(records).drop_last() == row_texts(head));
        assert(identity_check(records[records.len() - 1]) is Ok);
        lemma_row_round_trip(last);
        if holds(head, last.stable_id) {
            let k = choose|k: int| 0 <= k < head.len() && (#[trigger] head[k]).stable_id
                == last.stable_id;
            assert(records[k].stable_id != records[records.len() - 1].stable_id);
        }
        assert(head.push(last) == records);
    }
}

/// A journal gives back the records that were written to it.
pub proof fn read_inverts_write(records: Seq<IdentityModel>)
    requires
        records_ok(records),
        utf8_len(journal_text(records)) <= MAX_JOURNAL_BYTES,
    ensures
        written(records) == Ok::<Seq<char>, Seq<char>>(journal_text(records)),
        journal_records(journal_text(records)) == Ok::<Seq<IdentityModel>, Seq<char>>(records),
{
    lemma_all_valid(records);
    assert forall|i: int| 0 <= i < records.len() implies row_chars_no_line_end(
        row_text(#[trigger] records[i]),
    ) by {
        assert(identity_check(records[i]) is Ok);
        lemma_row_round_trip(records[i]);
    }
    lemma_journal_lines(records);
    lemma_rows_round_trip(records);
}

proof fn lemma_rows_ok(list: Seq<Seq<char>>)
    requires
        rows(list) is Ok,
    ensures
        records_ok(rows(list)->Ok_0),
    decreases list.len(),
{
    if list.len() > 0 {
        lemma_rows_ok(list.drop_last());
        let records = rows(list.drop_last())->Ok_0;
        let identity = row_identity(list.last())->Ok_0;
        let all = records.push(identity);
        assert forall|i: int, j: int| 0 <= i < j < all.len() implies (#[trigger] all[i]).stable_id
            != (#[trigger] all[j]).stable_id by {
            if j == records.len() {
                assert(records[i] == all[i]);
            }
        }
    }
}

/// Whatever a journal reads as, its records pass the checks and no two share
/// an identity.
pub proof fn records_read_are_ok(contents: Seq<char>)
    requires
        journal_records(contents) is Ok,
    ensures
        records_ok(journal_records(contents)->Ok_0),
{
    lemma_rows_ok(lines(contents));
}

proof fn lemma_found(records: Seq<IdentityModel>, stable_id: Seq<char>)
    ensures
        found(records, stable_id) is Some <==> holds(records, stable_id),
    decreases records.len(),
{
    if records.len() > 0 {
        let rest = records.drop_first();
        lemma_found(rest, stable_id);
        if holds(rest, stable_id) {
            let k = choose|k: int| 0 <= k < rest.len() && (#[trigger] rest[k]).stable_id
                == stable_id;
            assert(records[k + 1].stable_id == stable_id);
        }
        if holds(records, stable_id) && records[0].stable_id != stable_id {
            let k = choose|k: int| 0 <= k < records.len() && (#[trigger] records[k]).stable_id
                == stable_id;
            assert(rest[k - 1] == records[k]);
        }
    }
}

/// After an identity was added, the journal holds the same records as before
/// and that one behind them.
pub proof fn add_then_read(contents: Seq<char>, identity: IdentityModel, text: Seq<char>)
    requires
        journal_added(contents, identity) == Ok::<Option<Seq<char>>, Seq<char>>(Some(text)),
        utf8_len(text) <= MAX_JOURNAL_BYTES,
    ensures
        journal_records(text) == Ok::<Seq<IdentityModel>, Seq<char>>(
            journal_records(contents)->Ok_0.push(identity),
        ),
{
    let records = journal_records(contents)->Ok_0;
    records_read_are_ok(contents);
    lemma_found(records, identity.stable_id);
    let all = records.push(identity);
    assert(records_ok(all)) by {
        assert forall|i: int, j: int| 0 <= i < j < all.len() implies (#[trigger] all[i]).stable_id
            != (#[trigger] all[j]).stable_id by {
            if j == records.len() {
                assert(records[i] == all[i]);
            }
        }
    }
    read_inverts_write(all);
}

proof fn lemma_without(records: Seq<IdentityModel>, stable_id: Seq<char>)
    requires
        records_ok(records),
    ensures
        records_ok(without(records, stable_id)),
        !holds(without(records, stable_id), stable_id),
        forall|r: IdentityModel| #[trigger]
            without(records, stable_id).contains(r) <==> records.contains(r) && r.stable_id
                != stable_id,
    decreases records.len(),
{
    if records.len() > 0 {
        let head = records.drop_last();
        let last = records.last();
        assert(records_ok(head)) by {
            assert forall|i: int| 0 <= i < head.len() implies identity_check(
                #[trigger] head[i],
            ) is Ok && head[i].platform == "linux"@ by {
                assert(head[i] == records[i]);
            }
            assert forall|i: int, j: int| 0 <= i < j < head.len() implies (
            #[trigger] head[i]).stable_id != (#[trigger] head[j]).stable_id by {
                assert(head[i] == records[i]);
                assert(head[j] == records[j]);
            }
        }
        lemma_without(head, stable_id);
        let kept = without(head, stable_id);
        let after = without(records, stable_id);
        assert(records[records.len() - 1] == last);
        assert forall|r: IdentityModel| records.contains(r) <==> head.contains(r) || r == last by {
            if records.contains(r) {
                let k = choose|k: int| 0 <= k < records.len() && records[k] == r;
                if k < head.len() {
                    assert(head[k] == r);
                }
            }
            if head.contains(r) {
                let k = choose|k: int| 0 <= k < head.len() && head[k] == r;
                assert(records[k] == r);
            }
        }
        if last.stable_id != stable_id {
            assert(after == kept.push(last));
            assert forall|i: int| 0 <= i < after.len() implies identity_check(
                #[trigger] after[i],
            ) is Ok && after[i].platform == "linux"@ by {
                if i < kept.len() {
                    assert(after[i] == kept[i]);
                }
            }
            assert forall|i: int, j: int| 0 <= i < j < after.len() implies (
            #[trigger] after[i]).stable_id != (#[trigger] after[j]).stable_id by {
                if j == kept.len() {
                    assert(kept.contains(kept[i]));
                    assert(head.contains(kept[i]));
                    let k = choose|k: int| 0 <= k < head.len() && head[k] == kept[i];
                    assert(records[k].stable_id != records[records.len() - 1].stable_id);
                } else {
                    assert(after[i] == kept[i]);
                    assert(after[j] == kept[j]);
                }
            }
            assert forall|r: IdentityModel| #[trigger]
                after.contains(r) <==> records.contains(r) && r.stable_id != stable_id by {
                if after.contains(r) {
                    let k = choose|k: int| 0 <= k < after.len() && after[k] == r;
                    if k < kept.len() {
                        assert(kept[k] == r);
                        assert(kept.contains(r));
                    }
                }
                if r == last {
                    assert(after[kept.len() as int] == r);
                }
                if kept.contains(r) {
                    let k = choose|k: int| 0 <= k < kept.len() && kept[k] == r;
                    assert(after[k] == r);
                }
            }
            if holds(after, stable_id) {
                let k = choose|k: int| 0 <= k < after.len() && (#[trigger] after[k]).stable_id
                    == stable_id;
                assert(kept[k] == after[k]);
            }
        }
    }
}

/// After an identity was removed, the journal holds every other record of
/// before and no record of that identity.
pub proof fn remove_then_read(contents: Seq<char>, identity: IdentityModel, text: Seq<char>)
    requires
        journal_removed(contents, identity) == Ok::<Option<Seq<char>>, Seq<char>>(Some(text)),
        utf8_len(text) <= MAX_JOURNAL_BYTES,
    ensures
        journal_records(text) matches Ok(after) && {
            &&& !holds(after, identity.stable_id)
            &&& forall|r: IdentityModel| #[trigger]
                after.contains(r) <==> journal_records(contents)->Ok_0.contains(r) && r.stable_id
                    != identity.stable_id
        },
{
    let records = journal_records(contents)->Ok_0;
    records_read_are_ok(contents);
    lemma_without(records, identity.stable_id);
    read_inverts_write(without(records, identity.stable_id));
}

/// Adding an identity that stands in the journal changes nothing.
pub proof fn add_is_idempotent(contents: Seq<char>, identity: IdentityModel, text: Seq<char>)
    requires
        journal_added(contents, identity) == Ok::<Option<Seq<char>>, Seq<char>>(Some(text)),
        utf8_len(text) <= MAX_JOURNAL_BYTES,
    ensures
        journal_added(text, identity) == Ok::<Option<Seq<char>>, Seq<char>>(None),
{
    add_then_read(contents, identity, text);
    let records = journal_records(contents)->Ok_0;
    let all = records.push(identity);
    lemma_found(records, identity.stable_id);
    lemma_found_push(records, identity);
}

proof fn lemma_found_push(records: Seq<IdentityModel>, identity: IdentityModel)
    requires
        found(records, identity.stable_id) is None,
    ensures
        found(records.push(identity), identity.stable_id) == Some(identity),
    decreases records.len(),
{
    let all = records.push(identity);
    if records.len() > 0 {
        assert(all.drop_first() == records.drop_first().push(identity));
        lemma_found_push(records.drop_first(), identity);
    }
}

} // verus!
