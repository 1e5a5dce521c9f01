//! The records a search produces and stores, the library's error type, and the
//! sign-up record with its validation rules.
use vstd::prelude::*;

use crate::query::{QuerySet, TitleQuery};
use crate::text::decimal;

verus! {

broadcast use vstd::string::group_string_axioms;

/// What a search looks for: cell texts under given titles, or cell texts anywhere.
#[derive(Debug)]
pub enum JsonQuery {
    TitleData(TitleQuery),
    OnlyData(QuerySet),
}

/// A request to stream a batch, with its id and query.
#[derive(Debug)]
pub enum Action {
    Stream((String, JsonQuery)),
}

/// A stored stream of report rows.
#[derive(Debug)]
pub struct Stream {
    pub stream_id: String,
    pub title_row: Vec<String>,
    pub batch_matrix: Vec<Vec<String>>,
}

/// The result of searching one file: its title row and its report rows.
#[derive(Debug)]
pub struct FileResult {
    pub titles: Vec<String>,
    pub body_matrix: Vec<Vec<String>>,
}

impl FileResult {
    /// A result with no titles and no rows.
    pub fn new() -> (r: FileResult)
        ensures
            r.titles@.len() == 0,
            r.body_matrix@.len() == 0,
    {
        FileResult { titles: Vec::new(), body_matrix: Vec::new() }
    }
}

/// The results of one batch of files searched with one query.
#[derive(Debug)]
pub struct Batch {
    pub batch_id: String,
    pub file_results: Vec<FileResult>,
    pub query: JsonQuery,
}

impl Batch {
    /// A batch with the given id and query and no results yet.
    pub fn new(batch_id: String, query: JsonQuery) -> (r: Batch)
        ensures
            r.batch_id == batch_id,
            r.query == query,
            r.file_results@.len() == 0,
    {
        Batch { batch_id, file_results: Vec::new(), query }
    }
}

#[verifier::external_type_specification]
#[verifier::external_body]
pub struct ExUuid(uuid::Uuid);

/// Calls `uuid::Uuid::new_v4()`. Which id is drawn is random; `new_v4` masks the
/// random bits to set the version (4) and the RFC 4122 variant (`v4.rs`), so its
/// text has the shape of `v4_text_shape`.
#[verifier::external_body]
pub(crate) fn new_uuid() -> (r: uuid::Uuid)
    ensures
        v4_text_shape(uuid_text(r)),
{
    uuid::Uuid::new_v4()
}

/// A lower-case hexadecimal digit.
pub open spec fn is_lower_hex(c: char) -> bool {
    ('0' <= c && c <= '9') || ('a' <= c && c <= 'f')
}

/// The hyphenated text of a UUID: 36 characters, hyphens at positions 8, 13, 18
/// and 23, lower-case hexadecimal digits elsewhere.
pub open spec fn uuid_text_shape(s: Seq<char>) -> bool {
    &&& s.len() == 36
    &&& forall|i: int|
        0 <= i < 36 ==> if i == 8 || i == 13 || i == 18 || i == 23 {
            #[trigger] s[i] == '-'
        } else {
            is_lower_hex(s[i])
        }
}

/// A version 4 UUID in hyphenated form: the version digit `4` at position 14
/// and a variant digit of `8`, `9`, `a` or `b` at position 19.
pub open spec fn v4_text_shape(s: Seq<char>) -> bool {
    &&& uuid_text_shape(s)
    &&& s[14] == '4'
    &&& (s[19] == '8' || s[19] == '9' || s[19] == 'a' || s[19] == 'b')
}

/// The text of a UUID as its `Display` writes it.
pub uninterp spec fn uuid_text(id: uuid::Uuid) -> Seq<char>;

/// Calls `Uuid`'s `to_string`. Its `Display` writes the lower-case hyphenated
/// form (`format_hyphenated` in `fmt.rs`), which has that shape.
#[verifier::external_body]
fn uuid_to_string(id: &uuid::Uuid) -> (s: String)
    ensures
        s@ == uuid_text(*id),
        uuid_text_shape(s@),
{
    id.to_string()
}

/// A process record: the number of batches, a fresh id and per-key data.
#[derive(Debug)]
pub struct Process {
    pub total_batches: u64,
    pub proc_id: String,
    pub data: Vec<(String, Vec<String>)>,
}

impl Process {
    /// A new process with one batch, no data and a random version 4 UUID, in
    /// hyphenated form, as its id.
    pub fn new() -> (r: Process)
        ensures
            r.total_batches == 1,
            v4_text_shape(r.proc_id@),
            r.data@.len() == 0,
    {
        let id = new_uuid();
        Process { total_batches: 1, proc_id: uuid_to_string(&id), data: Vec::new() }
    }
}

#[verifier::external_type_specification]
#[verifier::external_body]
pub struct ExRocketError(rocket::Error);

#[verifier::external_type_specification]
#[verifier::external_body]
pub struct ExCalamineError(calamine::Error);

#[verifier::external_type_specification]
#[verifier::external_body]
pub struct ExSetLoggerError(log::SetLoggerError);

#[verifier::external_type_specification]
#[verifier::external_body]
pub struct ExSerdeJsonError(serde_json::Error);

#[verifier::external_type_specification]
#[verifier::external_body]
pub struct ExUuidError(uuid::Error);

#[verifier::external_type_specification]
#[verifier::external_body]
pub struct ExRedisError(redis::RedisError);

#[verifier::external_type_specification]
#[verifier::external_body]
pub struct ExXlsxError(rust_xlsxwriter::XlsxError);

/// Everything that can go wrong while indexing files.
#[derive(Debug)]
pub enum IndexError {
    RocketError(rocket::Error),
    CalamineError(calamine::Error),
    LogError(log::SetLoggerError),
    SerdeError(serde_json::Error),
    UuidError(uuid::Error),
    RedisError(redis::RedisError),
    XlsxwriterError(rust_xlsxwriter::XlsxError),
    FileFormatError(String),
    NoMatchFound(String),
    NotFound(String),
}

impl IndexError {
    /// A file format error carrying `msg` as text.
    pub fn invalid_file_format<T: std::fmt::Display + ?Sized>(msg: &T) -> (r: IndexError)
        ensures
            r matches IndexError::FileFormatError(s) && vstd::string::to_string_from_display_ensures::<T>(msg, s),
    {
        IndexError::FileFormatError(msg.to_string())
    }

    /// A no-match error carrying `msg` as text.
    pub fn no_match_found<T: std::fmt::Display + ?Sized>(msg: &T) -> (r: IndexError)
        ensures
            r matches IndexError::NoMatchFound(s) && vstd::string::to_string_from_display_ensures::<T>(msg, s),
    {
        IndexError::NoMatchFound(msg.to_string())
    }

    /// A not-found error carrying `msg` as text.
    pub fn not_found<T: std::fmt::Display + ?Sized>(msg: &T) -> (r: IndexError)
        ensures
            r matches IndexError::NotFound(s) && vstd::string::to_string_from_display_ensures::<T>(msg, s),
    {
        IndexError::NotFound(msg.to_string())
    }
}

} // verus!

verus! {

pub open spec fn is_ascii_letter(c: char) -> bool {
    ('a' <= c && c <= 'z') || ('A' <= c && c <= 'Z')
}

pub open spec fn is_ascii_alnum(c: char) -> bool {
    is_ascii_letter(c) || ('0' <= c && c <= '9')
}

/// A character allowed before the `@` of an e-mail address.
pub open spec fn local_char(c: char) -> bool {
    is_ascii_alnum(c) || c == '.' || c == '_' || c == '%' || c == '+' || c == '-'
}

/// A character allowed in the domain of an e-mail address, before its last label.
pub open spec fn domain_char(c: char) -> bool {
    is_ascii_alnum(c) || c == '.' || c == '-'
}

/// `s` splits into a local part `s[..a]`, `@`, a domain `s[a+1..b]`, `.` and a
/// final label of two or more letters `s[b+1..]`.
pub open spec fn email_split(s: Seq<char>, a: int, b: int) -> bool {
    &&& 1 <= a && a + 2 <= b && b + 3 <= s.len()
    &&& forall|i: int| 0 <= i < a ==> local_char(#[trigger] s[i])
    &&& s[a] == '@'
    &&& forall|i: int| a < i < b ==> domain_char(#[trigger] s[i])
    &&& s[b] == '.'
    &&& forall|i: int| b < i < s.len() ==> is_ascii_letter(#[trigger] s[i])
}

/// The addresses that `^[a-zA-Z0-9._%+-]+@[a-zA-Z0-9.-]+\.[a-zA-Z]{2,}$` matches.
pub open spec fn email_shape(s: Seq<char>) -> bool {
    exists|a: int, b: int| #[trigger] email_split(s, a, b)
}

/// The pattern that e-mail addresses are checked against.
pub open spec fn email_pattern() -> Seq<char> {
    "^[a-zA-Z0-9._%+-]+@[a-zA-Z0-9.-]+\\.[a-zA-Z]{2,}$"@
}

/// Calls `regex::Regex::new(pattern)` and `is_match(text)`. Only the e-mail
/// pattern of this library is admitted: it compiles, and by the regex syntax the
/// crate documents it matches exactly the texts of `email_shape` (`^` and `$`
/// anchor at the ends of the text, the classes hold ASCII characters only).
#[verifier::external_body]
fn regex_is_match(pattern: &str, text: &str) -> (r: bool)
    requires
        pattern@ == email_pattern(),
    ensures
        r == email_shape(text@),
{
    regex::Regex::new(pattern).unwrap().is_match(text)
}

/// The decimal text of a signed integer, as `Display` writes it.
pub open spec fn i64_text(n: int) -> Seq<char> {
    if n < 0 {
        seq!['-'] + decimal((-n) as nat)
    } else {
        decimal(n as nat)
    }
}

/// The number of digits of `m`.
fn decimal_len(m: u64) -> (r: u64)
    ensures
        r == decimal(m as nat).len(),
        r <= m + 1,
    decreases m,
{
    if m < 10 {
        1
    } else {
        let r = decimal_len(m / 10);
        assert(decimal(m as nat) == decimal((m / 10) as nat).push(
            crate::text::digit_char((m % 10) as nat),
        ));
        r + 1
    }
}

/// The length of the decimal text of `n`.
fn i64_text_len(n: i64) -> (r: u64)
    ensures
        r == i64_text(n as int).len(),
{
    if n < 0 {
        let mag: u64 = ((-(n + 1)) as u64) + 1;
        decimal_len(mag) + 1
    } else {
        decimal_len(n as u64)
    }
}

/// The rules a sign-up must meet: a phone number of at least nine characters as
/// written in decimal, a well-formed e-mail address, and a full name of at least
/// four bytes.
pub open spec fn registration_ok(phone_number: i64, email: Seq<char>, fullname: Seq<char>) -> bool {
    &&& i64_text(phone_number as int).len() >= 9
    &&& email_shape(email)
    &&& utf8_len(fullname) >= 4
}

/// The number of bytes of the UTF-8 encoding of a text.
pub open spec fn utf8_len(s: Seq<char>) -> nat
    decreases s.len(),
{
    if s.len() == 0 {
        0
    } else {
        utf8_len(s.drop_last()) + if s.last() <= '\u{7f}' {
            1nat
        } else if s.last() <= '\u{7ff}' {
            2nat
        } else if s.last() <= '\u{ffff}' {
            3nat
        } else {
            4nat
        }
    }
}

/// Whether the UTF-8 encoding of `s` has at least `n` bytes, for `n <= 4`.
fn utf8_len_at_least(s: &str, n: usize) -> (r: bool)
    requires
        n <= 4,
    ensures
        r == (utf8_len(s@) >= n),
{
    let mut count: usize = 0;
    for c in it: s.chars()
        invariant
            it.seq() == s@,
            n <= 4,
            count == (if utf8_len(s@.take(it.index())) < 4 {
                utf8_len(s@.take(it.index()))
            } else {
                4
            }),
    {
        let ghost i = it.index();
        proof {
            assert(s@.take(i + 1).drop_last() =~= s@.take(i));
            assert(s@.take(i + 1).last() == c);
        }
        let w: usize = if c <= '\u{7f}' {
            1
        } else if c <= '\u{7ff}' {
            2
        } else if c <= '\u{ffff}' {
            3
        } else {
            4
        };
        count = if count + w < 4 {
            count + w
        } else {
            4
        };
    }
    assert(s@.take(s@.len() as int) =~= s@);
    count >= n
}

/// A user sign-up record.
#[derive(Debug)]
pub struct Duserreq {
    pub id: uuid::Uuid,
    pub fullname: String,
    pub email: String,
    pub phone_number: i64,
    pub joined: chrono::NaiveDate,
}

/// A user sign-up as submitted.
#[derive(Debug)]
pub struct DuserInst {
    pub fullname: String,
    pub email: String,
    pub phone_number: i64,
}

impl DuserInst {
    /// The record of this sign-up: the same name, address and phone number, with
    /// a fresh random version 4 id and today's date.
    #[allow(clippy::should_implement_trait, clippy::wrong_self_convention)]
    pub fn into(self) -> (r: Duserreq)
        ensures
            v4_text_shape(uuid_text(r.id)),
            r.fullname == self.fullname,
            r.email == self.email,
            r.phone_number == self.phone_number,
    {
        let DuserInst { fullname, email, phone_number } = self;
        Duserreq { id: new_uuid(), fullname, email, phone_number, joined: crate::clock::utc_today() }
    }
}

impl Duserreq {
    fn verify_email(email: &String) -> (r: bool)
        ensures
            r == email_shape(email@),
    {
        regex_is_match("^[a-zA-Z0-9._%+-]+@[a-zA-Z0-9.-]+\\.[a-zA-Z]{2,}$", email.as_str())
    }

    /// Gives the record the id `id` and the date `joined`, then checks it: when it
    /// meets the sign-up rules, returns the record to store.
    pub fn validate_with(&mut self, id: uuid::Uuid, joined: chrono::NaiveDate) -> (r: Option<Self>)
        ensures
            final(self).id == id,
            final(self).joined == joined,
            final(self).fullname == old(self).fullname,
            final(self).email == old(self).email,
            final(self).phone_number == old(self).phone_number,
            r is Some <==> registration_ok(
                old(self).phone_number,
                old(self).email@,
                old(self).fullname@,
            ),
            r matches Some(u) ==> u == *final(self),
    {
        self.id = id;
        self.joined = joined;
        if i64_text_len(self.phone_number) < 9 || !Self::verify_email(&self.email)
            || !utf8_len_at_least(self.fullname.as_str(), 4) {
            return None;
        }
        Some(
            Duserreq {
                id: self.id,
                fullname: self.fullname.clone(),
                email: self.email.clone(),
                phone_number: self.phone_number,
                joined: self.joined,
            },
        )
    }

    /// Gives the record a fresh random version 4 id and today's date (`validate_with`), then
    /// checks it: when it meets the sign-up rules, returns the record to store.
    pub fn validate_and_save(&mut self) -> (r: Option<Self>)
        ensures
            v4_text_shape(uuid_text(final(self).id)),
            final(self).fullname == old(self).fullname,
            final(self).email == old(self).email,
            final(self).phone_number == old(self).phone_number,
            r is Some <==> registration_ok(
                old(self).phone_number,
                old(self).email@,
                old(self).fullname@,
            ),
            r matches Some(u) ==> u == *final(self),
    {
        let id = new_uuid();
        let joined = crate::clock::utc_today();
        self.validate_with(id, joined)
    }
}

} // verus!
