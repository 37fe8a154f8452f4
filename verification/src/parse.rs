//! The entity parser: one ordered field list in, one validated entity out.
//!
//! A record is `type|pathOrUri|size|modTime` with an optional fifth `owner`
//! field. The type is a single case-insensitive character (`F`ile,
//! `D`irectory, `S`ymlink), the path may be a bare filesystem path or a URI
//! whose path component is taken, and size and modification time are
//! non-negative decimal integers.

use vstd::prelude::*;

verus! {

/// What a record describes.
#[derive(Clone, Copy, Debug, PartialEq, Eq, Structural)]
pub enum EntityKind {
    File,
    Directory,
    Symlink,
}

/// The numeric field that failed to parse.
#[derive(Clone, Copy, Debug, PartialEq, Eq, Structural)]
pub enum NumField {
    Size,
    ModTime,
}

/// Why a record was rejected. Every error is per-record and recoverable:
/// the record is dropped and the stream goes on.
#[derive(Clone, Copy, Debug, PartialEq, Eq, Structural)]
pub enum ParseError {
    /// The field count matches neither schema width.
    SchemaError,
    /// The leading character of the type field names no known kind.
    UnknownKindError,
    /// A size or modification-time field is not a `u64` decimal number.
    NumericFieldError(NumField),
}

/// Type, size in bytes and modification time (epoch milliseconds) of one
/// parsed record. Immutable once parsed.
#[derive(Clone, Copy, Debug, PartialEq, Eq, Structural)]
pub struct FileStat {
    pub kind: EntityKind,
    pub size: u64,
    pub mod_time: u64,
}

/// One validated entity: a normalized path, its stat, and the owning user
/// if the record carried one.
#[derive(Debug)]
pub struct FileInfo {
    pub path: String,
    pub stat: FileStat,
    pub user: Option<String>,
}

/// Case-insensitive kind letter.
pub open spec fn kind_of_char(c: char) -> Option<EntityKind> {
    if c == 'f' || c == 'F' {
        Some(EntityKind::File)
    } else if c == 'd' || c == 'D' {
        Some(EntityKind::Directory)
    } else if c == 's' || c == 'S' {
        Some(EntityKind::Symlink)
    } else {
        None
    }
}

fn parse_kind(c: char) -> (r: Option<EntityKind>)
    ensures
        r == kind_of_char(c),
{
    if c == 'f' || c == 'F' {
        Some(EntityKind::File)
    } else if c == 'd' || c == 'D' {
        Some(EntityKind::Directory)
    } else if c == 's' || c == 'S' {
        Some(EntityKind::Symlink)
    } else {
        None
    }
}

pub open spec fn is_digit(c: char) -> bool {
    48 <= c as u32 && c as u32 <= 57
}

pub open spec fn digit_val(c: char) -> nat {
    (c as u32 - 48) as nat
}

pub open spec fn all_digits(s: Seq<char>) -> bool {
    forall|i: int| 0 <= i < s.len() ==> is_digit(#[trigger] s[i])
}

/// Value of a digit string read in base ten.
pub open spec fn dec_val(s: Seq<char>) -> nat
    decreases s.len(),
{
    if s.len() == 0 {
        0
    } else {
        dec_val(s.drop_last()) * 10 + digit_val(s.last())
    }
}

/// A string that parses as a `u64`: non-empty, all digits, and in range.
pub open spec fn valid_u64(s: Seq<char>) -> bool {
    s.len() > 0 && all_digits(s) && dec_val(s) <= u64::MAX
}

/// A digit string is worth at least any of its prefixes.
pub proof fn lemma_dec_val_mono(s: Seq<char>, k: int)
    requires
        0 <= k <= s.len(),
    ensures
        dec_val(s.take(k)) <= dec_val(s),
    decreases s.len(),
{
    if k < s.len() {
        assert(s.take(k) =~= s.drop_last().take(k));
        lemma_dec_val_mono(s.drop_last(), k);
    } else {
        assert(s.take(k) =~= s);
    }
}

/// Parse a non-negative decimal integer, rejecting empty strings, non-digit
/// characters and values over `u64::MAX`.
pub fn parse_u64(s: &str) -> (r: Option<u64>)
    ensures
        r is Some <==> valid_u64(s@),
        r matches Some(v) ==> v == dec_val(s@),
{
    let n = s.unicode_len();
    if n == 0 {
        return None;
    }
    let mut i: usize = 0;
    let mut acc: u64 = 0;
    while i < n
        invariant
            0 <= i <= n,
            n == s@.len(),
            all_digits(s@.take(i as int)),
            acc == dec_val(s@.take(i as int)),
        decreases n - i,
    {
        let c = s.get_char(i);
        let u = c as u32;
        if u < 48 || u > 57 {
            assert(!is_digit(s@[i as int]));
            return None;
        }
        let d = (u - 48) as u64;
        let wide: u128 = acc as u128 * 10 + d as u128;
        assert(s@.take(i as int + 1).drop_last() =~= s@.take(i as int));
        assert(s@.take(i as int + 1).last() == s@[i as int]);
        if wide > u64::MAX as u128 {
            proof {
                lemma_dec_val_mono(s@, i as int + 1);
            }
            return None;
        }
        acc = wide as u64;
        i = i + 1;
    }
    assert(s@.take(n as int) =~= s@);
    Some(acc)
}

/// What the URI parser finds in a field: the path component when the field
/// is an absolute URI, nothing otherwise.
pub uninterp spec fn uri_path_view(s: Seq<char>) -> Option<Seq<char>>;

/// Relies on `url::Url::parse` and `url::Url::path`: parsing either fails
/// or yields a URL whose path component is a function of the input string
/// alone.
#[verifier::external_body]
fn parse_uri_path(s: &str) -> (r: Option<String>)
    ensures
        r is Some <==> uri_path_view(s@) is Some,
        r matches Some(p) ==> uri_path_view(s@) == Some(p@),
{
    match url::Url::parse(s) {
        Ok(u) => Some(String::from(u.path())),
        Err(_) => None,
    }
}

/// The path a record's path-or-URI field denotes: the URI's path component
/// when the field parses as an absolute URI, the raw field otherwise.
pub open spec fn spec_uri_to_path(s: Seq<char>) -> Seq<char> {
    match uri_path_view(s) {
        Some(p) => p,
        None => s,
    }
}

/// Normalize a path-or-URI field to a filesystem path. Source dumps mix
/// bare paths and `scheme://host/path` forms.
pub fn uri_to_path(path: &str) -> (r: String)
    ensures
        r@ == spec_uri_to_path(path@),
{
    match parse_uri_path(path) {
        Some(p) => p,
        None => path.to_owned(),
    }
}

/// The field views of a record, in order.
pub open spec fn field_views(fields: Seq<String>) -> Seq<Seq<char>> {
    fields.map_values(|f: String| f@)
}

/// The error a field list is rejected with, if any. The checks run in
/// order: field count, kind letter, size, modification time.
pub open spec fn record_error(fields: Seq<Seq<char>>) -> Option<ParseError> {
    if fields.len() != 4 && fields.len() != 5 {
        Some(ParseError::SchemaError)
    } else if fields[0].len() == 0 || kind_of_char(fields[0][0]) is None {
        Some(ParseError::UnknownKindError)
    } else if !valid_u64(fields[2]) {
        Some(ParseError::NumericFieldError(NumField::Size))
    } else if !valid_u64(fields[3]) {
        Some(ParseError::NumericFieldError(NumField::ModTime))
    } else {
        None
    }
}

impl FileInfo {
    /// Parse one ordered field list into a validated entity, or reject it
    /// with the specific reason. Purely functional: no state is shared with
    /// any other record.
    pub fn new(fields: &Vec<String>) -> (r: Result<FileInfo, ParseError>)
        ensures
            r is Ok <==> record_error(field_views(fields@)) is None,
            r matches Err(e) ==> record_error(field_views(fields@)) == Some(e),
            r matches Ok(fi) ==> {
                &&& Some(fi.stat.kind) == kind_of_char(fields@[0]@[0])
                &&& fi.path@ == spec_uri_to_path(fields@[1]@)
                &&& fi.stat.size == dec_val(fields@[2]@)
                &&& fi.stat.mod_time == dec_val(fields@[3]@)
                &&& (fields@.len() == 5 ==> (fi.user matches Some(u) && u@ == fields@[4]@))
                &&& (fields@.len() == 4 ==> fi.user is None)
            },
    {
        let nf = fields.len();
        if nf != 4 && nf != 5 {
            return Err(ParseError::SchemaError);
        }
        if fields[0].as_str().unicode_len() == 0 {
            return Err(ParseError::UnknownKindError);
        }
        let c = fields[0].as_str().get_char(0);
        let kind = match parse_kind(c) {
            Some(k) => k,
            None => {
                return Err(ParseError::UnknownKindError);
            },
        };
        let size = match parse_u64(fields[2].as_str()) {
            Some(v) => v,
            None => {
                return Err(ParseError::NumericFieldError(NumField::Size));
            },
        };
        let mod_time = match parse_u64(fields[3].as_str()) {
            Some(v) => v,
            None => {
                return Err(ParseError::NumericFieldError(NumField::ModTime));
            },
        };
        let path = uri_to_path(fields[1].as_str());
        let user = if nf == 5 {
            Some(fields[4].clone())
        } else {
            None
        };
        Ok(FileInfo { path, stat: FileStat { kind, size, mod_time }, user })
    }

    pub fn is_dir(&self) -> (r: bool)
        ensures
            r == (self.stat.kind == EntityKind::Directory),
    {
        self.stat.kind == EntityKind::Directory
    }

    pub fn is_file(&self) -> (r: bool)
        ensures
            r == (self.stat.kind == EntityKind::File),
    {
        self.stat.kind == EntityKind::File
    }

    pub fn is_sym(&self) -> (r: bool)
        ensures
            r == (self.stat.kind == EntityKind::Symlink),
    {
        self.stat.kind == EntityKind::Symlink
    }
}

} // verus!
