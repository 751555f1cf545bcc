//! What an upgrade reads from a release: the tag of the latest release from
//! its JSON description, and the uzumaki binary from the release's zip
//! asset.

use crate::cli::opt_view;
use crate::strings::{has_suffix, owned, push_str};
use vstd::prelude::*;

verus! {

#[verifier::external_type_specification]
#[verifier::external_body]
pub struct ExJsonError(serde_json::Error);

#[verifier::external_type_specification]
#[verifier::external_body]
pub struct ExZipError(zip::result::ZipError);

#[verifier::external_type_specification]
#[verifier::external_body]
pub struct ExIoError(std::io::Error);

#[verifier::external_type_specification]
#[verifier::external_body]
#[verifier::reject_recursive_types(T)]
pub struct ExCursor<T>(std::io::Cursor<T>);

#[verifier::external_type_specification]
#[verifier::external_body]
#[verifier::reject_recursive_types(R)]
pub struct ExZipArchive<R>(zip::ZipArchive<R>);

/// The string member `key` of the JSON object in `text`: `None` when
/// `text` is not JSON; `Some(None)` when it is, but is not an object with
/// a string member `key`.
pub uninterp spec fn json_string_member(text: Seq<char>, key: Seq<char>) -> Option<
    Option<Seq<char>>,
>;

/// Calls `serde_json::from_str` into a `serde_json::Value`, then
/// `Value::get(key)`, and takes the member's text when it is a JSON
/// string. The result is named by `json_string_member`.
#[verifier::external_body]
fn parse_string_member(text: &str, key: &str) -> (r: Result<Option<String>, serde_json::Error>)
    ensures
        match r {
            Ok(m) => json_string_member(text@, key@) == Some(opt_view(m)),
            Err(_) => json_string_member(text@, key@) is None,
        },
{
    serde_json::from_str::<serde_json::Value>(text).map(
        |v| match v.get(key) {
            Some(serde_json::Value::String(s)) => Some(s.clone()),
            _ => None,
        },
    )
}

/// Calls `<serde_json::Error as Display>::fmt` through `to_string`.
#[verifier::external_body]
fn json_error_text(e: &serde_json::Error) -> String {
    e.to_string()
}

/// Calls `<zip::result::ZipError as Display>::fmt` through `to_string`.
#[verifier::external_body]
fn zip_error_text(e: &zip::result::ZipError) -> String {
    e.to_string()
}

/// Calls `<std::io::Error as Display>::fmt` through `to_string`.
#[verifier::external_body]
fn io_error_text(e: &std::io::Error) -> String {
    e.to_string()
}

/// Why an upgrade could not get what it reads from a release.
#[derive(Debug)]
pub enum UpdateError {
    /// The release description is not JSON (with the parser's message).
    InvalidJson(String),
    /// The release description has no string `tag_name`.
    NoTagName,
    /// The asset is not a zip archive (with the archive reader's message).
    InvalidZip(String),
    /// An entry of the archive could not be opened (with the message).
    Entry(String),
    /// The binary's bytes could not be read (with the message).
    Read(String),
    /// The archive holds no entry for the binary of this name.
    BinaryNotFound(String),
}

impl UpdateError {
    /// The error as text.
    pub fn message(&self) -> (r: String)
        ensures
            match self {
                UpdateError::InvalidJson(_) => r@ == "invalid JSON from GitHub API"@,
                UpdateError::NoTagName => r@ == "no tag_name in latest release"@,
                UpdateError::InvalidZip(_) => r@ == "invalid zip archive"@,
                UpdateError::Entry(m) => r@ == m@,
                UpdateError::Read(m) => r@ == m@,
                UpdateError::BinaryNotFound(n) => r@ == "binary '"@ + n@
                    + "' not found in zip archive"@,
            },
    {
        match self {
            UpdateError::InvalidJson(_) => owned("invalid JSON from GitHub API"),
            UpdateError::NoTagName => owned("no tag_name in latest release"),
            UpdateError::InvalidZip(_) => owned("invalid zip archive"),
            UpdateError::Entry(m) => m.clone(),
            UpdateError::Read(m) => m.clone(),
            UpdateError::BinaryNotFound(n) => {
                let mut r = owned("binary '");
                push_str(&mut r, n.as_str());
                push_str(&mut r, "' not found in zip archive");
                r
            },
        }
    }
}

/// The tag of the latest release, from the text of its JSON description:
/// its string member `tag_name`.
pub fn latest_tag(body: &str) -> (r: Result<String, UpdateError>)
    ensures
        match r {
            Ok(tag) => json_string_member(body@, "tag_name"@) == Some(Some(tag@)),
            Err(UpdateError::InvalidJson(_)) => json_string_member(body@, "tag_name"@) is None,
            Err(UpdateError::NoTagName) => json_string_member(body@, "tag_name"@) == Some(
                None::<Seq<char>>,
            ),
            Err(_) => false,
        },
{
    match parse_string_member(body, "tag_name") {
        Ok(Some(tag)) => Ok(tag),
        Ok(None) => Err(UpdateError::NoTagName),
        Err(e) => Err(UpdateError::InvalidJson(json_error_text(&e))),
    }
}

/// An archive entry is the binary when its name is the binary's name, or
/// ends with `/` and the binary's name.
pub open spec fn is_binary_entry(name: Seq<char>, binary: Seq<char>) -> bool {
    name == binary || has_suffix(name, seq!['/'] + binary)
}

/// Whether the archive entry `name` is the binary `binary`.
pub fn binary_entry_matches(name: &str, binary: &str) -> (b: bool)
    ensures
        b == is_binary_entry(name@, binary@),
{
    if crate::strings::str_eq(name, binary) {
        return true;
    }
    let mut slashed = owned("/");
    push_str(&mut slashed, binary);
    proof {
        reveal_strlit("/");
        assert(slashed@ =~= seq!['/'] + binary@);
    }
    crate::strings::ends_with(name, slashed.as_str())
}

/// The names of the entries of an archive, in the archive's order.
pub uninterp spec fn zip_entry_names(a: zip::ZipArchive<std::io::Cursor<Vec<u8>>>) -> Seq<
    Seq<char>,
>;

/// The decompressed bytes of the entries of an archive, in the archive's order.
pub uninterp spec fn zip_entry_data(a: zip::ZipArchive<std::io::Cursor<Vec<u8>>>) -> Seq<
    Seq<u8>,
>;

/// Whether `ZipArchive::by_index` opens each entry of an archive, in the
/// archive's order.
pub uninterp spec fn zip_entry_opens(a: zip::ZipArchive<std::io::Cursor<Vec<u8>>>) -> Seq<bool>;

/// Whether the decompressed bytes of each entry of an archive can be read
/// to the end once the entry is open, in the archive's order.
pub uninterp spec fn zip_entry_reads(a: zip::ZipArchive<std::io::Cursor<Vec<u8>>>) -> Seq<bool>;

/// The zip archive in `bytes`, as the names, the decompressed bytes, and
/// whether each entry opens and reads, entry by entry in order; `None`
/// when `bytes` hold no zip archive.
pub uninterp spec fn zip_archive_of(bytes: Seq<u8>) -> Option<
    (Seq<Seq<char>>, Seq<Seq<u8>>, Seq<bool>, Seq<bool>),
>;

/// Calls `zip::ZipArchive::new` on the bytes; what it finds is named by
/// `zip_archive_of`.
#[verifier::external_body]
fn zip_open(bytes: Vec<u8>) -> (r: Result<
    zip::ZipArchive<std::io::Cursor<Vec<u8>>>,
    zip::result::ZipError,
>)
    ensures
        match r {
            Ok(a) => zip_archive_of(bytes@) == Some(
                (zip_entry_names(a), zip_entry_data(a), zip_entry_opens(a), zip_entry_reads(a)),
            ),
            Err(_) => zip_archive_of(bytes@) is None,
        },
{
    zip::ZipArchive::new(std::io::Cursor::new(bytes))
}

/// Calls `zip::ZipArchive::len`: the number of entries.
#[verifier::external_body]
fn zip_len(a: &zip::ZipArchive<std::io::Cursor<Vec<u8>>>) -> (n: usize)
    ensures
        n == zip_entry_names(*a).len(),
        zip_entry_data(*a).len() == n,
        zip_entry_opens(*a).len() == n,
        zip_entry_reads(*a).len() == n,
{
    a.len()
}

/// What opening an entry gave.
pub enum EntryReadError {
    /// `ZipArchive::by_index` failed.
    Open(zip::result::ZipError),
    /// Reading the entry's bytes failed.
    Read(std::io::Error),
}

/// Calls `zip::ZipArchive::by_index(i)` and takes the entry's name
/// (`ZipFile::name`); with `with_data`, also reads its decompressed bytes
/// (`Read::read_to_end`). The archive's entries stay as they were; opening
/// fails exactly for the entries that `zip_entry_opens` marks, reading for
/// those that `zip_entry_reads` marks, and the name and bytes are those of
/// entry `i`.
#[verifier::external_body]
fn zip_entry(
    a: &mut zip::ZipArchive<std::io::Cursor<Vec<u8>>>,
    i: usize,
    with_data: bool,
) -> (r: Result<(String, Option<Vec<u8>>), EntryReadError>)
    requires
        i < zip_entry_names(*old(a)).len(),
    ensures
        zip_entry_names(*final(a)) == zip_entry_names(*old(a)),
        zip_entry_data(*final(a)) == zip_entry_data(*old(a)),
        zip_entry_opens(*final(a)) == zip_entry_opens(*old(a)),
        zip_entry_reads(*final(a)) == zip_entry_reads(*old(a)),
        match r {
            Ok((name, data)) => zip_entry_opens(*old(a))[i as int] && name@ == zip_entry_names(
                *old(a),
            )[i as int] && match data {
                Some(d) => with_data && zip_entry_reads(*old(a))[i as int] && d@ == zip_entry_data(
                    *old(a),
                )[i as int],
                None => !with_data,
            },
            Err(EntryReadError::Read(_)) => with_data && zip_entry_opens(*old(a))[i as int]
                && !zip_entry_reads(*old(a))[i as int],
            Err(EntryReadError::Open(_)) => !zip_entry_opens(*old(a))[i as int],
        },
{
    let mut file = a.by_index(i).map_err(EntryReadError::Open)?;
    let name = file.name().to_string();
    if !with_data {
        return Ok((name, None));
    }
    let mut bytes = Vec::new();
    std::io::Read::read_to_end(&mut file, &mut bytes).map_err(EntryReadError::Read)?;
    Ok((name, Some(bytes)))
}

/// The index of the first entry name in `names` that is the binary.
pub open spec fn is_first_binary_entry(names: Seq<Seq<char>>, binary: Seq<char>, k: int) -> bool {
    &&& 0 <= k < names.len()
    &&& is_binary_entry(names[k], binary)
    &&& forall|j: int| 0 <= j < k ==> !is_binary_entry(#[trigger] names[j], binary)
}

/// Each of the first `n` entries opens.
pub open spec fn opens_before(opens: Seq<bool>, n: int) -> bool {
    forall|j: int| 0 <= j < n ==> #[trigger] opens[j]
}

/// None of the first `n` entries is the binary.
pub open spec fn no_binary_before(names: Seq<Seq<char>>, binary: Seq<char>, n: int) -> bool {
    forall|j: int| 0 <= j < n ==> !is_binary_entry(#[trigger] names[j], binary)
}

/// `bytes` are those of the first entry that is the binary, and every
/// entry up to it opens and it reads.
pub open spec fn binary_extracted(
    names: Seq<Seq<char>>,
    data: Seq<Seq<u8>>,
    opens: Seq<bool>,
    reads: Seq<bool>,
    binary: Seq<char>,
    bytes: Seq<u8>,
) -> bool {
    exists|k: int|
        #![trigger data[k]]
        is_first_binary_entry(names, binary, k) && opens_before(opens, k + 1) && reads[k] && bytes
            == data[k]
}

/// An entry does not open, and every entry before it opens and is not the
/// binary.
pub open spec fn entry_fails_to_open(names: Seq<Seq<char>>, opens: Seq<bool>, binary: Seq<char>) -> bool {
    exists|j: int|
        #![trigger opens[j]]
        0 <= j < names.len() && !opens[j] && opens_before(opens, j) && no_binary_before(
            names,
            binary,
            j,
        )
}

/// The first entry that is the binary, and every entry before it, opens,
/// but its bytes do not read.
pub open spec fn binary_fails_to_read(
    names: Seq<Seq<char>>,
    opens: Seq<bool>,
    reads: Seq<bool>,
    binary: Seq<char>,
) -> bool {
    exists|k: int|
        #![trigger reads[k]]
        is_first_binary_entry(names, binary, k) && opens_before(opens, k + 1) && !reads[k]
}

/// The bytes of the uzumaki binary inside a release's zip asset: entries
/// are opened in the archive's order until the first that `is_binary_entry`
/// names, whose bytes are read. Fails when the bytes are no archive, when
/// an entry on the way does not open, when the binary's bytes do not read,
/// and when no entry is the binary.
pub fn extract_binary_from_zip(zip_bytes: Vec<u8>, binary_name: &str) -> (r: Result<
    Vec<u8>,
    UpdateError,
>)
    ensures
        match zip_archive_of(zip_bytes@) {
            None => r matches Err(UpdateError::InvalidZip(_)),
            Some(a) => match r {
                Ok(bytes) => binary_extracted(a.0, a.1, a.2, a.3, binary_name@, bytes@),
                Err(UpdateError::Entry(_)) => entry_fails_to_open(a.0, a.2, binary_name@),
                Err(UpdateError::Read(_)) => binary_fails_to_read(a.0, a.2, a.3, binary_name@),
                Err(UpdateError::BinaryNotFound(n)) => n@ == binary_name@ && no_binary_before(
                    a.0,
                    binary_name@,
                    a.0.len() as int,
                ) && opens_before(a.2, a.0.len() as int),
                Err(_) => false,
            },
        },
{
    let ghost bytes_view = zip_bytes@;
    let mut archive = match zip_open(zip_bytes) {
        Ok(a) => a,
        Err(e) => return Err(UpdateError::InvalidZip(zip_error_text(&e))),
    };
    let ghost first = archive;
    let ghost names = zip_entry_names(first);
    let ghost data = zip_entry_data(first);
    let ghost opens = zip_entry_opens(first);
    let ghost reads = zip_entry_reads(first);
    let n = zip_len(&archive);
    let mut i: usize = 0;
    while i < n
        invariant
            bytes_view == zip_bytes@,
            zip_archive_of(bytes_view) == Some((names, data, opens, reads)),
            n == names.len(),
            n == opens.len(),
            zip_entry_names(archive) == names,
            zip_entry_data(archive) == data,
            zip_entry_opens(archive) == opens,
            zip_entry_reads(archive) == reads,
            i <= n,
            no_binary_before(names, binary_name@, i as int),
            opens_before(opens, i as int),
        decreases n - i,
    {
        let name = match zip_entry(&mut archive, i, false) {
            Ok((name, _)) => name,
            Err(EntryReadError::Open(e)) => {
                proof {
                    assert(!opens[i as int]);
                    assert(entry_fails_to_open(names, opens, binary_name@));
                }
                return Err(UpdateError::Entry(zip_error_text(&e)));
            },
            Err(EntryReadError::Read(e)) => return Err(UpdateError::Read(io_error_text(&e))),
        };
        if binary_entry_matches(name.as_str(), binary_name) {
            proof {
                assert(is_first_binary_entry(names, binary_name@, i as int));
                assert(opens_before(opens, i + 1));
            }
            return match zip_entry(&mut archive, i, true) {
                Ok((_, Some(bytes))) => {
                    proof {
                        assert(bytes@ == data[i as int]);
                        assert(binary_extracted(names, data, opens, reads, binary_name@, bytes@));
                    }
                    Ok(bytes)
                },
                Ok((_, None)) => Err(UpdateError::BinaryNotFound(owned(binary_name))),
                Err(EntryReadError::Open(e)) => Err(UpdateError::Entry(zip_error_text(&e))),
                Err(EntryReadError::Read(e)) => {
                    proof {
                        assert(!reads[i as int]);
                        assert(binary_fails_to_read(names, opens, reads, binary_name@));
                    }
                    Err(UpdateError::Read(io_error_text(&e)))
                },
            };
        }
        proof {
            assert(no_binary_before(names, binary_name@, i + 1));
            assert(opens_before(opens, i + 1));
        }
        i = i + 1;
    }
    let mut missing = String::new();
    push_str(&mut missing, binary_name);
    Err(UpdateError::BinaryNotFound(missing))
}

} // verus!
