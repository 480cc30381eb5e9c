//! Federated identities: how the identity of a user is derived from the record that the
//! identity provider keeps, and the table of them that a run looks users up in.

use crate::error::ApiError;
use crate::settings::Settings;
use crate::text::{
    fields, first_index, first_visible, first_visible_char, lemma_first_index_unique,
    lemma_zero_padded, parse_u64, parse_unsigned, split, split_once, texts, u64_zero_padded,
    zero_padded,
};
use std::collections::HashMap;
use vstd::prelude::*;
use vstd::string::StringExecFns;

verus! {

broadcast use vstd::std_specs::hash::group_hash_axioms;

/// One record of the identity provider: a legacy user with what the provider knows of them.
#[derive(Debug, PartialEq, Eq)]
pub struct FxaCSVRecord {
    pub uid: u64,
    pub email: String,
    pub generation: Option<u64>,
    pub keys_changed_at: Option<u64>,
    pub client_state: String,
}

/// What an [`FxaCSVRecord`] holds, as mathematical values.
pub struct RecordView {
    pub uid: u64,
    pub email: Seq<char>,
    pub generation: Option<u64>,
    pub keys_changed_at: Option<u64>,
    pub client_state: Seq<char>,
}

impl View for FxaCSVRecord {
    type V = RecordView;

    open spec fn view(&self) -> RecordView {
        RecordView {
            uid: self.uid,
            email: self.email@,
            generation: self.generation,
            keys_changed_at: self.keys_changed_at,
            client_state: self.client_state@,
        }
    }
}

/// The federated identity of a user: the pair that names them in the destination.
#[derive(Debug, PartialEq, Eq)]
pub struct FxaData {
    pub fxa_uid: String,
    pub fxa_kid: String,
}

/// What an [`FxaData`] holds, as mathematical values.
pub struct FxaDataView {
    pub fxa_uid: Seq<char>,
    pub fxa_kid: Seq<char>,
}

impl View for FxaData {
    type V = FxaDataView;

    open spec fn view(&self) -> FxaDataView {
        FxaDataView { fxa_uid: self.fxa_uid@, fxa_kid: self.fxa_kid@ }
    }
}

impl Clone for FxaData {
    fn clone(&self) -> (copy: Self)
        ensures
            copy == *self,
    {
        FxaData { fxa_uid: self.fxa_uid.clone(), fxa_kid: self.fxa_kid.clone() }
    }
}

impl Default for FxaData {
    /// The identity of nobody: both parts are empty.
    fn default() -> (data: Self)
        ensures
            data@ == (FxaDataView { fxa_uid: Seq::empty(), fxa_kid: Seq::empty() }),
    {
        FxaData { fxa_uid: String::new(), fxa_kid: String::new() }
    }
}

/// Whether `c` is a hexadecimal digit, in either case.
pub open spec fn is_hex_digit(c: char) -> bool {
    ||| '0' <= c <= '9'
    ||| 'a' <= c <= 'f'
    ||| 'A' <= c <= 'F'
}

/// The number that the hexadecimal digit `c` stands for.
pub open spec fn hex_value(c: char) -> int {
    if '0' <= c <= '9' {
        c as int - '0' as int
    } else if 'a' <= c <= 'f' {
        c as int - 'a' as int + 10
    } else {
        c as int - 'A' as int + 10
    }
}

/// Whether `s` writes bytes in hexadecimal: an even number of hexadecimal digits.
pub open spec fn is_hex_text(s: Seq<char>) -> bool {
    &&& s.len() % 2 == 0
    &&& forall|i: int| 0 <= i < s.len() ==> is_hex_digit(#[trigger] s[i])
}

/// The bytes that `s` writes in hexadecimal: each pair of digits is one byte, the first
/// digit of a pair its upper half.
pub open spec fn hex_bytes(s: Seq<char>) -> Seq<u8> {
    Seq::new(s.len() / 2, |i: int| (hex_value(s[2 * i]) * 16 + hex_value(s[2 * i + 1])) as u8)
}

/// The base-64 text of `bytes` in the alphabet that is safe in URLs, without padding.
pub uninterp spec fn base64_url_no_pad(bytes: Seq<u8>) -> Seq<char>;

/// `hex::FromHexError`, the error of `hex::decode`: nothing is read of it.
#[verifier::external_type_specification]
#[verifier::external_body]
pub struct ExFromHexError(hex::FromHexError);

/// `hex::decode`, on the bytes of a text. It succeeds on an even number of hexadecimal
/// digits, and then gives the byte of each pair; on any other text it fails, either for
/// the odd length or for the first byte that is no such digit (a character outside ASCII
/// is made of bytes that are none).
#[verifier::external_body]
fn hex_decode(text: &str) -> (r: Result<Vec<u8>, hex::FromHexError>)
    ensures
        match r {
            Ok(bytes) => is_hex_text(text@) && bytes@ == hex_bytes(text@),
            Err(_) => !is_hex_text(text@),
        },
{
    hex::decode(text)
}

/// `base64::encode_config` with `base64::URL_SAFE_NO_PAD`. Its result is named, not
/// spelled out. It panics where the length of the text would not fit a `usize`, which the
/// precondition rules out.
#[verifier::external_body]
fn base64_encode(bytes: &Vec<u8>) -> (text: String)
    requires
        bytes@.len() / 3 * 4 + 3 <= usize::MAX,
    ensures
        text@ == base64_url_no_pad(bytes@),
{
    base64::encode_config(bytes, base64::URL_SAFE_NO_PAD)
}

/// Whether `s` is an identifier as the anonymized mode makes them: 32 hexadecimal digits,
/// the letters in lower case.
pub open spec fn is_anonymous_id(s: Seq<char>) -> bool {
    &&& s.len() == 32
    &&& forall|i: int| 0 <= i < s.len() ==> ('0' <= #[trigger] s[i] <= '9' || 'a' <= s[i] <= 'f')
}

/// `uuid::Uuid::new_v4`, written in the simple format: 32 hexadecimal digits in lower case,
/// without hyphens. Which digits is left to chance, so two calls differ. It panics if the
/// system has no random bytes to give.
#[verifier::external_body]
fn random_id() -> (id: String)
    ensures
        is_anonymous_id(id@),
{
    uuid::Uuid::new_v4().to_simple().to_string()
}

/// The index of the key of a record: when the keys last changed, else the generation of the
/// account, else 0.
pub open spec fn key_index(record: RecordView) -> u64 {
    match record.keys_changed_at {
        Some(at) => at,
        None => match record.generation {
            Some(generation) => generation,
            None => 0,
        },
    }
}

/// The local part of an email address: what stands before its first `@`, or all of it where
/// it has none.
pub open spec fn local_part(email: Seq<char>) -> Seq<char> {
    email.take(first_index(email, '@'))
}

/// The key id of an identity: the index of the key in 13 digits, a hyphen, and the encoded
/// client state.
pub open spec fn kid_text(index: nat, encoded: Seq<char>) -> Seq<char> {
    zero_padded(index, 13) + seq!['-'] + encoded
}

/// The key id that a record gives, where its client state is hexadecimal.
pub open spec fn kid_of(record: RecordView) -> Seq<char> {
    kid_text(key_index(record) as nat, base64_url_no_pad(hex_bytes(record.client_state)))
}

/// Puts a key id together from the index of the key and the encoded client state.
pub fn make_kid(index: u64, encoded: &str) -> (kid: String)
    ensures
        kid@ == kid_text(index as nat, encoded@),
{
    proof {
        reveal_strlit("-");
        assert("-"@ =~= seq!['-']);
    }
    let mut kid = u64_zero_padded(index, 13);
    kid.append("-");
    kid.append(encoded);
    kid
}

/// The identity that a record gives: the local part of its email address and its key id. A
/// record whose client state is not hexadecimal gives none.
pub open spec fn identity_of(record: RecordView) -> Result<FxaDataView, ApiError> {
    if is_hex_text(record.client_state) {
        Ok(FxaDataView { fxa_uid: local_part(record.email), fxa_kid: kid_of(record) })
    } else {
        Err(ApiError::InvalidClientState)
    }
}

/// Two records with the same email address give the same user id.
pub proof fn lemma_same_email_same_uid(a: RecordView, b: RecordView)
    requires
        a.email == b.email,
    ensures
        local_part(a.email) == local_part(b.email),
        identity_of(a) is Ok && identity_of(b) is Ok ==> identity_of(a)->Ok_0.fxa_uid
            == identity_of(b)->Ok_0.fxa_uid,
{
}

/// Two records with the same key index and the same client state give the same key id.
pub proof fn lemma_same_key_same_kid(a: RecordView, b: RecordView)
    requires
        key_index(a) == key_index(b),
        a.client_state == b.client_state,
    ensures
        kid_of(a) == kid_of(b),
        identity_of(a) is Ok <==> identity_of(b) is Ok,
        identity_of(a) is Ok ==> identity_of(a)->Ok_0.fxa_kid == identity_of(b)->Ok_0.fxa_kid,
{
}

/// Where the hyphen of a key id stands: right behind the padded index of the key.
proof fn lemma_kid_hyphen(index: nat, encoded: Seq<char>)
    ensures
        first_index(kid_text(index, encoded), '-') == zero_padded(index, 13).len(),
{
    let padded = zero_padded(index, 13);
    let kid = kid_text(index, encoded);
    lemma_zero_padded(index, 13);
    assert forall|j: int| 0 <= j < padded.len() implies kid[j] != '-' by {
        assert(kid[j] == padded[j]);
        assert(crate::text::is_digit(padded[j]));
    }
    assert(kid[padded.len() as int] == '-');
    lemma_first_index_unique(kid, '-', padded.len() as int);
}

/// A key id tells its parts: two key ids are the same only if the indexes of their keys are
/// the same and their encoded client states are the same.
pub proof fn lemma_kid_injective(index: nat, encoded: Seq<char>, other: nat, other_encoded: Seq<char>)
    requires
        kid_text(index, encoded) == kid_text(other, other_encoded),
    ensures
        index == other,
        encoded == other_encoded,
{
    let kid = kid_text(index, encoded);
    lemma_kid_hyphen(index, encoded);
    lemma_kid_hyphen(other, other_encoded);
    lemma_zero_padded(index, 13);
    lemma_zero_padded(other, 13);
    let at = zero_padded(index, 13).len() as int;
    assert(kid.take(at) =~= zero_padded(index, 13));
    assert(kid.take(at) =~= zero_padded(other, 13));
    assert(kid.skip(at + 1) =~= encoded);
    assert(kid.skip(at + 1) =~= other_encoded);
}

/// The identities of the users of a run, by their legacy ids.
#[derive(Debug, PartialEq, Eq)]
pub struct FxaInfo {
    pub users: HashMap<u64, FxaData>,
    /// Whether identities are made up afresh at each lookup, for rehearsals that must not
    /// name real users. Such a run cannot be repeated or audited.
    pub anon: bool,
}

impl FxaInfo {
    /// The user id of a record: the local part of its email address.
    pub fn gen_uid(record: &FxaCSVRecord) -> (r: Result<String, ApiError>)
        ensures
            r matches Ok(uid) && uid@ == local_part(record.email@),
    {
        match split_once(record.email.as_str(), '@') {
            Some((head, _)) => Ok(head),
            None => {
                assert(record.email@.take(record.email@.len() as int) =~= record.email@);
                Ok(record.email.clone())
            },
        }
    }

    /// The key id of a record, which its client state must be hexadecimal for.
    pub fn gen_kid(record: &FxaCSVRecord) -> (r: Result<String, ApiError>)
        ensures
            match r {
                Ok(kid) => is_hex_text(record.client_state@) && kid@ == kid_of(record@),
                Err(e) => e == ApiError::InvalidClientState && !is_hex_text(record.client_state@),
            },
    {
        let index: u64 = match record.keys_changed_at {
            Some(at) => at,
            None => match record.generation {
                Some(generation) => generation,
                None => 0,
            },
        };
        let _length = record.client_state.as_str().unicode_len();
        match hex_decode(record.client_state.as_str()) {
            Ok(bytes) => {
                let encoded = base64_encode(&bytes);
                Ok(make_kid(index, encoded.as_str()))
            },
            Err(_) => Err(ApiError::InvalidClientState),
        }
    }

    /// The identity that the table holds for the legacy id `uid`.
    pub open spec fn identity(&self, uid: u64) -> Option<FxaData> {
        if self.users@.contains_key(uid) {
            Some(self.users@[uid])
        } else {
            None
        }
    }

    /// Looks up the identity of the legacy id `uid`. In the anonymized mode every id has an
    /// identity, a new one at each lookup.
    pub fn get_fxa_data(&self, uid: u64) -> (r: Option<FxaData>)
        ensures
            !self.anon ==> r == self.identity(uid),
            self.anon ==> r is Some && is_anonymous_id(r->Some_0.fxa_uid@) && is_anonymous_id(
                r->Some_0.fxa_kid@,
            ),
    {
        if self.anon {
            return Some(FxaData { fxa_uid: random_id(), fxa_kid: random_id() });
        }
        match self.users.get(&uid) {
            Some(data) => Some(data.clone()),
            None => None,
        }
    }
}

/// The number in a field that may be left out: `NULL` and the empty field say that there
/// is none.
pub open spec fn optional_number(field: Seq<char>) -> Result<Option<u64>, ApiError> {
    if field == "NULL"@ || field.len() == 0 {
        Ok(None)
    } else {
        match parse_unsigned(field, u64::MAX as nat) {
            Some(n) => Ok(Some(n as u64)),
            None => Err(ApiError::InvalidRecord),
        }
    }
}

/// What a line of the identity data says. A line whose first visible character is `#` is a
/// comment, and one whose first field is `uid` is the header: neither holds a record. Any
/// other line holds, with tabs between them, a legacy id, an email address, a generation, the
/// time at which the keys changed, and a client state, of which `NULL` stands for an empty
/// one.
pub open spec fn record_of(line: Seq<char>) -> Result<Option<RecordView>, ApiError> {
    let f = fields(line, '\t');
    if first_visible(line) == Some('#') {
        Ok(None)
    } else if f[0] == "uid"@ {
        Ok(None)
    } else if f.len() < 5 {
        Err(ApiError::InvalidRecord)
    } else {
        match (
            parse_unsigned(f[0], u64::MAX as nat),
            optional_number(f[2]),
            optional_number(f[3]),
        ) {
            (Some(uid), Ok(generation), Ok(keys_changed_at)) => Ok(
                Some(
                    RecordView {
                        uid: uid as u64,
                        email: f[1],
                        generation,
                        keys_changed_at,
                        client_state: if f[4] == "NULL"@ {
                            Seq::empty()
                        } else {
                            f[4]
                        },
                    },
                ),
            ),
            _ => Err(ApiError::InvalidRecord),
        }
    }
}

/// The table of identities that the lines of the identity data give, read from the first
/// line on; the first line that cannot be read, or whose client state is not hexadecimal,
/// ends the reading with its error. Of two records of one user, the later one stays.
pub open spec fn identities(lines: Seq<Seq<char>>) -> Result<Map<u64, FxaDataView>, ApiError>
    decreases lines.len(),
{
    if lines.len() == 0 {
        Ok(Map::empty())
    } else {
        match identities(lines.drop_last()) {
            Err(e) => Err(e),
            Ok(table) => match record_of(lines.last()) {
                Err(e) => Err(e),
                Ok(None) => Ok(table),
                Ok(Some(record)) => match identity_of(record) {
                    Err(e) => Err(e),
                    Ok(data) => Ok(table.insert(record.uid, data)),
                },
            },
        }
    }
}

/// Tells whether a text is the same as another.
fn same_text(text: &String, other: &str) -> (same: bool)
    ensures
        same == (text@ == other@),
{
    *text == other.to_owned()
}

/// Reads the number in a field that may be left out.
fn read_optional_number(field: &String) -> (r: Result<Option<u64>, ApiError>)
    ensures
        r == optional_number(field@),
{
    if same_text(field, "NULL") || field.as_str().is_empty() {
        Ok(None)
    } else {
        match parse_u64(field.as_str()) {
            Some(n) => Ok(Some(n)),
            None => Err(ApiError::InvalidRecord),
        }
    }
}

impl FxaInfo {
    /// Reads one line of the identity data.
    pub fn parse_record(line: &str) -> (r: Result<Option<FxaCSVRecord>, ApiError>)
        ensures
            match r {
                Ok(Some(record)) => record_of(line@) == Ok::<Option<RecordView>, ApiError>(
                    Some(record@),
                ),
                Ok(None) => record_of(line@) == Ok::<Option<RecordView>, ApiError>(None),
                Err(e) => record_of(line@) == Err::<Option<RecordView>, ApiError>(e),
            },
    {
        if first_visible_char(line) == Some('#') {
            return Ok(None);
        }
        let f = split(line, '\t');
        proof {
            crate::text::lemma_fields_len(line@, '\t');
        }
        assert(f.len() >= 1);
        assert(f[0]@ == fields(line@, '\t')[0]);
        if same_text(&f[0], "uid") {
            return Ok(None);
        }
        if f.len() < 5 {
            return Err(ApiError::InvalidRecord);
        }
        assert(f[1]@ == fields(line@, '\t')[1]);
        assert(f[2]@ == fields(line@, '\t')[2]);
        assert(f[3]@ == fields(line@, '\t')[3]);
        assert(f[4]@ == fields(line@, '\t')[4]);
        let uid = match parse_u64(f[0].as_str()) {
            Some(uid) => uid,
            None => {
                return Err(ApiError::InvalidRecord);
            },
        };
        let generation = match read_optional_number(&f[2]) {
            Ok(generation) => generation,
            Err(e) => {
                return Err(e);
            },
        };
        let keys_changed_at = match read_optional_number(&f[3]) {
            Ok(at) => at,
            Err(e) => {
                return Err(e);
            },
        };
        let client_state = if same_text(&f[4], "NULL") {
            String::new()
        } else {
            f[4].clone()
        };
        Ok(Some(FxaCSVRecord { uid, email: f[1].clone(), generation, keys_changed_at, client_state }))
    }

    /// The identities of the table, as mathematical values.
    pub open spec fn identities(&self) -> Map<u64, FxaDataView> {
        self.users@.map_values(|data: FxaData| data@)
    }

    /// Builds the table of identities from the lines of the identity data. In the anonymized
    /// mode the lines are not read and the table stays empty. Otherwise the first line that
    /// cannot be read ends the reading with its error, and data without any user is an error
    /// too.
    pub fn new(settings: &Settings, lines: &Vec<String>) -> (r: Result<FxaInfo, ApiError>)
        ensures
            match r {
                Ok(info) => if settings.anon {
                    info.anon && info.users@ == Map::<u64, FxaData>::empty()
                } else {
                    &&& !info.anon
                    &&& identities(texts(lines@)) == Ok::<Map<u64, FxaDataView>, ApiError>(
                        info.identities(),
                    )
                    &&& info.identities() != Map::<u64, FxaDataView>::empty()
                },
                Err(e) => !settings.anon && match identities(texts(lines@)) {
                    Err(first) => e == first,
                    Ok(table) => e == ApiError::NoUsers && table == Map::<u64, FxaDataView>::empty(),
                },
            },
    {
        if settings.anon {
            return Ok(FxaInfo { users: HashMap::new(), anon: true });
        }
        let mut users: HashMap<u64, FxaData> = HashMap::new();
        let mut found: bool = false;
        let ghost mut witness: u64 = 0;
        let mut i: usize = 0;
        assert(texts(lines@).take(0) =~= Seq::<Seq<char>>::empty());
        assert(users@.map_values(|data: FxaData| data@) =~= Map::<u64, FxaDataView>::empty());
        while i < lines.len()
            invariant
                i <= lines.len(),
                !settings.anon,
                identities(texts(lines@).take(i as int)) == Ok::<Map<u64, FxaDataView>, ApiError>(
                    users@.map_values(|data: FxaData| data@),
                ),
                !found ==> users@ == Map::<u64, FxaData>::empty(),
                found ==> users@.contains_key(witness),
            decreases lines.len() - i,
        {
            let ghost so_far = texts(lines@).take(i as int);
            let ghost next = texts(lines@).take(i + 1);
            let ghost before = users@;
            proof {
                assert(next.drop_last() =~= so_far);
                assert(next.last() == lines[i as int]@);
                if identities(next) is Err {
                    lemma_identities_prefix(texts(lines@), i + 1);
                }
            }
            let record = match FxaInfo::parse_record(lines[i].as_str()) {
                Err(e) => {
                    return Err(e);
                },
                Ok(None) => {
                    i = i + 1;
                    continue ;
                },
                Ok(Some(record)) => record,
            };
            let fxa_uid = match FxaInfo::gen_uid(&record) {
                Err(e) => {
                    return Err(e);
                },
                Ok(uid) => uid,
            };
            let fxa_kid = match FxaInfo::gen_kid(&record) {
                Err(e) => {
                    return Err(e);
                },
                Ok(kid) => kid,
            };
            let data = FxaData { fxa_uid, fxa_kid };
            users.insert(record.uid, data);
            proof {
                witness = record.uid;
                assert(users@.map_values(|data: FxaData| data@) =~= before.map_values(
                    |data: FxaData| data@,
                ).insert(record.uid, data@));
            }
            found = true;
            i = i + 1;
        }
        assert(texts(lines@).take(lines.len() as int) =~= texts(lines@));
        if !found {
            assert(users@.map_values(|data: FxaData| data@) =~= Map::<u64, FxaDataView>::empty());
            return Err(ApiError::NoUsers);
        }
        let info = FxaInfo { users, anon: false };
        assert(info.identities().contains_key(witness));
        Ok(info)
    }
}

/// An error in the lines read so far is the error of the whole reading.
pub proof fn lemma_identities_prefix(lines: Seq<Seq<char>>, k: int)
    requires
        0 <= k <= lines.len(),
        identities(lines.take(k)) is Err,
    ensures
        identities(lines) == identities(lines.take(k)),
    decreases lines.len(),
{
    if k == lines.len() {
        assert(lines.take(k) =~= lines);
    } else {
        assert(lines.drop_last().take(k) =~= lines.take(k));
        lemma_identities_prefix(lines.drop_last(), k);
    }
}

} // verus!
