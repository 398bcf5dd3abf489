//! Release versions and archives for the self-update command.
use vstd::prelude::*;
use crate::parse::{find_char, first_index, lemma_first_index};
use crate::text_util::{chars_of, eq_str, is_digit, push_chars, string_from, sub_chars};
use std::io::Cursor;
use zip::ZipArchive;
use flate2::read::GzDecoder;

verus! {

/// `s` without its leading `v`s (`trim_start_matches('v')`).
pub open spec fn strip_vs(s: Seq<char>) -> Seq<char>
    decreases s.len(),
{
    if s.len() > 0 && s[0] == 'v' {
        strip_vs(s.drop_first())
    } else {
        s
    }
}

/// The parts of `s` between the separators `c` (`str::split`); always at least one part.
pub open spec fn split_on(s: Seq<char>, c: char) -> Seq<Seq<char>>
    decreases s.len(),
{
    match first_index(s, c) {
        None => seq![s],
        Some(k) => if 0 <= k < s.len() {
            seq![s.take(k)] + split_on(s.skip(k + 1), c)
        } else {
            seq![s]
        },
    }
}

/// The value of a run of decimal digits.
pub open spec fn decimal_value(d: Seq<char>) -> nat
    decreases d.len(),
{
    if d.len() == 0 {
        0
    } else {
        decimal_value(d.drop_last()) * 10 + (d.last() as nat - '0' as nat) as nat
    }
}

pub open spec fn all_decimal(d: Seq<char>) -> bool {
    forall|k: int| 0 <= k < d.len() ==> is_digit(#[trigger] d[k])
}

/// `u32::from_str`: an optional `+`, then one or more digits, within range.
pub open spec fn parse_u32_spec(s: Seq<char>) -> Option<u32> {
    let d = if s.len() > 0 && s[0] == '+' {
        s.drop_first()
    } else {
        s
    };
    if d.len() > 0 && all_decimal(d) && decimal_value(d) <= u32::MAX {
        Some(decimal_value(d) as u32)
    } else {
        None
    }
}

/// The `k`-th dotted field of a version, or 0 when it is missing or not a number.
pub open spec fn version_field(parts: Seq<Seq<char>>, k: int) -> u32 {
    if k < parts.len() {
        match parse_u32_spec(parts[k]) {
            Some(n) => n,
            None => 0,
        }
    } else {
        0
    }
}

/// `major.minor.patch`, with an optional leading `v`.
pub open spec fn version_spec(v: Seq<char>) -> (u32, u32, u32) {
    let parts = split_on(strip_vs(v), '.');
    (version_field(parts, 0), version_field(parts, 1), version_field(parts, 2))
}

/// Parse a decimal `u32` the way `str::parse::<u32>` does.
pub fn parse_u32(s: &[char]) -> (r: Option<u32>)
    ensures
        r == parse_u32_spec(s@),
{
    let start: usize = if s.len() > 0 && s[0] == '+' { 1 } else { 0 };
    let d = sub_chars(s, start, s.len());
    assert(d@ == (if s@.len() > 0 && s@[0] == '+' { s@.drop_first() } else { s@ }));
    if d.len() == 0 {
        return None;
    }
    let mut value: u64 = 0;
    let mut i: usize = 0;
    while i < d.len()
        invariant
            i <= d.len(),
            d@.len() > 0,
            d@ == (if s@.len() > 0 && s@[0] == '+' { s@.drop_first() } else { s@ }),
            value == decimal_value(d@.take(i as int)),
            value <= u32::MAX,
            all_decimal(d@.take(i as int)),
        decreases d.len() - i,
    {
        let c = d[i];
        if !('0' <= c && c <= '9') {
            assert(!is_digit(d@[i as int]));
            return None;
        }
        assert(d@.take(i + 1).drop_last() == d@.take(i as int));
        value = value * 10 + ((c as u32) - ('0' as u32)) as u64;
        i += 1;
        if value > 0xffff_ffff {
            proof {
                if all_decimal(d@) {
                    lemma_decimal_prefix(d@, i as int);
                }
            }
            return None;
        }
    }
    assert(d@.take(i as int) == d@);
    Some(value as u32)
}

pub(crate) proof fn lemma_decimal_prefix(d: Seq<char>, i: int)
    requires
        0 <= i <= d.len(),
        all_decimal(d),
    ensures
        decimal_value(d.take(i)) <= decimal_value(d),
    decreases d.len() - i,
{
    if i < d.len() {
        lemma_decimal_prefix(d, i + 1);
        assert(d.take(i + 1).drop_last() == d.take(i));
    } else {
        assert(d.take(i) == d);
    }
}

/// Parse `major.minor.patch` (an optional leading `v`; missing or bad parts are 0).
pub fn parse_version(v: &str) -> (r: (u32, u32, u32))
    ensures
        r == version_spec(v@),
{
    let all = chars_of(v);
    let mut i: usize = 0;
    assert(all@.subrange(0, all@.len() as int) == all@);
    while i < all.len() && all[i] == 'v'
        invariant
            i <= all.len(),
            all@ == v@,
            strip_vs(all@.subrange(i as int, all@.len() as int)) == strip_vs(v@),
        decreases all.len() - i,
    {
        assert(all@.subrange(i as int, all@.len() as int).drop_first() == all@.subrange(
            i + 1,
            all@.len() as int,
        ));
        i += 1;
    }
    let t = sub_chars(all.as_slice(), i, all.len());
    let parts = split_dots(&t);
    let major = field(&parts, 0);
    let minor = field(&parts, 1);
    let patch = field(&parts, 2);
    (major, minor, patch)
}

fn field(parts: &Vec<Vec<char>>, k: usize) -> (n: u32)
    ensures
        n == version_field(parts@.map_values(|p: Vec<char>| p@), k as int),
{
    if k < parts.len() {
        match parse_u32(parts[k].as_slice()) {
            Some(n) => n,
            None => 0,
        }
    } else {
        0
    }
}

/// Split at every `.`.
fn split_dots(t: &Vec<char>) -> (parts: Vec<Vec<char>>)
    ensures
        parts@.map_values(|p: Vec<char>| p@) == split_on(t@, '.'),
{
    let mut parts: Vec<Vec<char>> = Vec::new();
    let mut rest = sub_chars(t.as_slice(), 0, t.len());
    assert(rest@ == t@);
    loop
        invariant
            split_on(t@, '.') == parts@.map_values(|p: Vec<char>| p@) + split_on(rest@, '.'),
        decreases rest@.len(),
    {
        proof {
            lemma_first_index(rest@, '.');
        }
        let found = find_char(rest.as_slice(), '.');
        match found {
            None => {
                let ghost before = parts@;
                let last = sub_chars(rest.as_slice(), 0, rest.len());
                assert(last@ == rest@);
                parts.push(last);
                assert(parts@.map_values(|p: Vec<char>| p@) =~= before.map_values(
                    |p: Vec<char>| p@,
                ).push(rest@));
                assert(split_on(rest@, '.') == seq![rest@]);
                return parts;
            },
            Some(k) => {
                assert(k < rest.len());
                let ghost before = parts@;
                let head = sub_chars(rest.as_slice(), 0, k);
                let tail = sub_chars(rest.as_slice(), k + 1, rest.len());
                parts.push(head);
                assert(parts@.map_values(|p: Vec<char>| p@) =~= before.map_values(
                    |p: Vec<char>| p@,
                ).push(rest@.take(k as int)));
                assert(tail@ == rest@.skip(k + 1));
                rest = tail;
            },
        }
    }
}

/// A leading `v` does not change the version that a text names.
pub proof fn lemma_version_ignores_v(s: Seq<char>)
    ensures
        version_spec(seq!['v'] + s) == version_spec(s),
{
    assert((seq!['v'] + s).drop_first() == s);
}

/// Where `x` holds no `.`, the first `.` of `x . r` is the one after `x`.
proof fn lemma_split_after(x: Seq<char>, r: Seq<char>)
    requires
        forall|j: int| 0 <= j < x.len() ==> #[trigger] x[j] != '.',
    ensures
        split_on(x + seq!['.'] + r, '.') == seq![x] + split_on(r, '.'),
{
    let s = x + seq!['.'] + r;
    crate::parse::lemma_first_index(s, '.');
    assert(s[x.len() as int] == '.');
    match first_index(s, '.') {
        Some(k) => {
            if k < x.len() {
                assert(s[k] == x[k]);
            }
            assert(k == x.len());
        },
        None => {},
    }
    assert(s.take(x.len() as int) =~= x);
    assert(s.skip(x.len() as int + 1) =~= r);
}

/// A version written `major.minor.patch` in decimal digits names those three numbers.
pub proof fn lemma_version_of_digits(a: Seq<char>, b: Seq<char>, c: Seq<char>)
    requires
        a.len() > 0 && all_decimal(a) && decimal_value(a) <= u32::MAX,
        b.len() > 0 && all_decimal(b) && decimal_value(b) <= u32::MAX,
        c.len() > 0 && all_decimal(c) && decimal_value(c) <= u32::MAX,
    ensures
        version_spec(a + seq!['.'] + b + seq!['.'] + c) == (
            decimal_value(a) as u32,
            decimal_value(b) as u32,
            decimal_value(c) as u32,
        ),
{
    let bc = b + seq!['.'] + c;
    let s = a + seq!['.'] + bc;
    assert(a + seq!['.'] + b + seq!['.'] + c =~= s);
    assert(is_digit(a[0]));
    assert(s[0] == a[0]);
    assert(strip_vs(s) == s);
    assert forall|j: int| 0 <= j < a.len() implies #[trigger] a[j] != '.' by {
        assert(is_digit(a[j]));
    }
    assert forall|j: int| 0 <= j < b.len() implies #[trigger] b[j] != '.' by {
        assert(is_digit(b[j]));
    }
    lemma_split_after(a, bc);
    lemma_split_after(b, c);
    crate::parse::lemma_first_index(c, '.');
    assert forall|j: int| 0 <= j < c.len() implies #[trigger] c[j] != '.' by {
        assert(is_digit(c[j]));
    }
    assert(first_index(c, '.') is None);
    assert(split_on(c, '.') == seq![c]);
    let parts = split_on(s, '.');
    assert(parts =~= seq![a, b, c]);
    assert(a[0] != '+');
    assert(b[0] != '+');
    assert(c[0] != '+');
}

/// The release archive for an operating system and architecture.
pub fn platform_archive(os: &str, arch: &str) -> (r: Result<&'static str, String>)
    ensures
        r matches Ok(a) ==> (os@ == "linux"@ && arch@ == "x86_64"@ && a@
            == "linux-x86_64.tar.gz"@) || (os@ == "linux"@ && arch@ == "aarch64"@ && a@
            == "linux-aarch64.tar.gz"@) || (os@ == "macos"@ && arch@ == "x86_64"@ && a@
            == "macos-x86_64.tar.gz"@) || (os@ == "macos"@ && arch@ == "aarch64"@ && a@
            == "macos-aarch64.tar.gz"@) || (os@ == "windows"@ && arch@ == "x86_64"@ && a@
            == "windows-x86_64.zip"@),
        r matches Err(m) ==> m@ == "unsupported platform: "@ + os@ + "/"@ + arch@ && !(
        (os@ == "linux"@ && (arch@ == "x86_64"@ || arch@ == "aarch64"@)) || (os@ == "macos"@
            && (arch@ == "x86_64"@ || arch@ == "aarch64"@)) || (os@ == "windows"@ && arch@
            == "x86_64"@)),
{
    let o = chars_of(os);
    let a = chars_of(arch);
    let linux = crate::text_util::eq_str(o.as_slice(), "linux");
    let macos = crate::text_util::eq_str(o.as_slice(), "macos");
    let windows = crate::text_util::eq_str(o.as_slice(), "windows");
    let x86 = crate::text_util::eq_str(a.as_slice(), "x86_64");
    let arm = crate::text_util::eq_str(a.as_slice(), "aarch64");
    if linux && x86 {
        Ok("linux-x86_64.tar.gz")
    } else if linux && arm {
        Ok("linux-aarch64.tar.gz")
    } else if macos && x86 {
        Ok("macos-x86_64.tar.gz")
    } else if macos && arm {
        Ok("macos-aarch64.tar.gz")
    } else if windows && x86 {
        Ok("windows-x86_64.zip")
    } else {
        let mut m = string_from(&chars_of("unsupported platform: "));
        push_chars(&mut m, o.as_slice());
        push_chars(&mut m, chars_of("/").as_slice());
        push_chars(&mut m, a.as_slice());
        Err(m)
    }
}


/// How a release archive is packed.
#[derive(Debug, Clone, Copy, PartialEq, Eq, Structural)]
pub enum ArchiveKind {
    TarGz,
    Zip,
}

pub open spec fn ends_with(s: Seq<char>, suffix: Seq<char>) -> bool {
    suffix.len() <= s.len() && s.skip(s.len() - suffix.len()) == suffix
}

fn ends_with_str(s: &[char], suffix: &str) -> (b: bool)
    ensures
        b == ends_with(s@, suffix@),
{
    let t = chars_of(suffix);
    if t.len() > s.len() {
        return false;
    }
    let tail = sub_chars(s, s.len() - t.len(), s.len());
    assert(tail@ == s@.skip(s@.len() - t@.len()));
    eq_str(tail.as_slice(), suffix)
}

/// A `.tar.gz` archive by its name; anything else is read as a zip.
pub fn archive_kind(archive: &str) -> (k: ArchiveKind)
    ensures
        k == (if ends_with(archive@, ".tar.gz"@) {
            ArchiveKind::TarGz
        } else {
            ArchiveKind::Zip
        }),
{
    if ends_with_str(chars_of(archive).as_slice(), ".tar.gz") {
        ArchiveKind::TarGz
    } else {
        ArchiveKind::Zip
    }
}

/// The Windows release binary, at the top of a zip or in a folder of it.
pub open spec fn is_windows_binary(name: Seq<char>) -> bool {
    ends_with(name, "/diagram.exe"@) || name == "diagram.exe"@
}

/// Whether a zip member is the release binary.
pub fn zip_member_is_binary(name: &str) -> (b: bool)
    ensures
        b == is_windows_binary(name@),
{
    let v = chars_of(name);
    ends_with_str(v.as_slice(), "/diagram.exe") || eq_str(v.as_slice(), "diagram.exe")
}

/// An opened zip archive, read from bytes held in memory. Verus cannot take the declaration of
/// `std::io::Cursor` beside that of `std::path::Path`, so the archive is held out of its sight,
/// and is spoken of through `zip_names` and `zip_contents`.
#[verifier::external_body]
pub struct ZipMembers {
    archive: ZipArchive<Cursor<Vec<u8>>>,
}

/// Member by member, in the order of `ZipArchive::by_index`: the member's name, as opening it
/// (`ZipArchive::by_index`) and reading its name (`ZipFile::name`) gives it, or `None` where
/// either fails. Both read the archive's bytes from fixed offsets, so the outcome depends on
/// the archive and the member alone.
pub uninterp spec fn zip_names(ar: ZipMembers) -> Seq<Option<Seq<char>>>;

/// Member by member, in the same order: the member's unpacked bytes, as opening it and reading
/// it to its end gives them, or `None` where either fails (such as on a checksum that does not
/// match).
pub uninterp spec fn zip_contents(ar: ZipMembers) -> Seq<Option<Seq<u8>>>;

/// What `zip::ZipArchive::new` makes of the bytes `data`: `None` where it refuses them, else
/// the names and contents of the archive it opens (as `zip_names` and `zip_contents` read them).
pub uninterp spec fn zip_listing(data: Seq<u8>) -> Option<(Seq<Option<Seq<char>>>, Seq<Option<Seq<u8>>>)>;

/// Calls `zip::ZipArchive::new` on the archive's bytes, read through a `std::io::Cursor`.
/// Which byte strings it accepts, and what it finds in them, is named by `zip_listing`; a
/// refusal is handed back as its message, which is not stated.
#[verifier::external_body]
fn zip_open(data: Vec<u8>) -> (r: Result<ZipMembers, String>)
    ensures
        match zip_listing(data@) {
            None => r is Err,
            Some(l) => r matches Ok(ar) && zip_names(ar) == l.0 && zip_contents(ar) == l.1,
        },
{
    ZipArchive::new(Cursor::new(data)).map(|archive| ZipMembers { archive }).map_err(|e| e.to_string())
}

/// Calls `zip::ZipArchive::len`: the number of members.
#[verifier::external_body]
fn zip_len(ar: &ZipMembers) -> (n: usize)
    ensures
        n == zip_names(*ar).len(),
        n == zip_contents(*ar).len(),
{
    ar.archive.len()
}

/// Calls `zip::ZipArchive::by_index` and then `ZipFile::name`: the name of member `i`
/// (`by_index` refuses an index past the last member). Opening a member moves only the
/// archive's read position, so its members stay as they were. A failure is handed back as its
/// message, which is not stated.
#[verifier::external_body]
fn zip_member_name(ar: &mut ZipMembers, i: usize) -> (r: Result<String, String>)
    ensures
        zip_names(*final(ar)) == zip_names(*old(ar)),
        zip_contents(*final(ar)) == zip_contents(*old(ar)),
        i < zip_names(*old(ar)).len() ==> match zip_names(*old(ar))[i as int] {
            Some(n) => r matches Ok(s) && s@ == n,
            None => r is Err,
        },
        i >= zip_names(*old(ar)).len() ==> r is Err,
{
    let file = ar.archive.by_index(i).map_err(|e| e.to_string())?;
    let name = file.name().map_err(|e| e.to_string())?;
    Ok(name.to_string())
}

/// Calls `zip::ZipArchive::by_index` and reads the member to its end
/// (`std::io::Read::read_to_end`): the unpacked bytes of member `i`. The archive's members stay
/// as they were. A failure is handed back as its message, which is not stated.
#[verifier::external_body]
fn zip_member_bytes(ar: &mut ZipMembers, i: usize) -> (r: Result<Vec<u8>, String>)
    ensures
        zip_names(*final(ar)) == zip_names(*old(ar)),
        zip_contents(*final(ar)) == zip_contents(*old(ar)),
        i < zip_contents(*old(ar)).len() ==> match zip_contents(*old(ar))[i as int] {
            Some(b) => r matches Ok(v) && v@ == b,
            None => r is Err,
        },
        i >= zip_contents(*old(ar)).len() ==> r is Err,
{
    let mut file = ar.archive.by_index(i).map_err(|e| e.to_string())?;
    let mut bytes = Vec::new();
    std::io::Read::read_to_end(&mut file, &mut bytes).map_err(|e| e.to_string())?;
    Ok(bytes)
}

/// How the search of an archive for the release binary ends.
pub enum ArchiveScan {
    /// No member from `i` on is named `diagram.exe`, and every name could be read.
    NotFound,
    /// A name, or the binary's bytes, could not be read.
    Failed,
    /// The bytes of the first member named `diagram.exe`.
    Found(Seq<u8>),
}

/// Members are looked at in order: the first whose name cannot be read ends the search with a
/// failure; the first named `diagram.exe` (at the top or in a folder) ends it with its bytes,
/// or with a failure where they cannot be read.
pub open spec fn zip_scan(names: Seq<Option<Seq<char>>>, contents: Seq<Option<Seq<u8>>>, i: int) -> ArchiveScan
    decreases names.len() - i,
{
    if i < 0 || i >= names.len() {
        ArchiveScan::NotFound
    } else {
        match names[i] {
            None => ArchiveScan::Failed,
            Some(n) => if is_windows_binary(n) {
                if i < contents.len() {
                    match contents[i] {
                        Some(b) => ArchiveScan::Found(b),
                        None => ArchiveScan::Failed,
                    }
                } else {
                    ArchiveScan::Failed
                }
            } else {
                zip_scan(names, contents, i + 1)
            },
        }
    }
}

/// What the search returns for each way it ends: the binary's bytes, the message that no
/// member is the binary, or an error (the reader's message).
pub open spec fn zip_scan_result(s: ArchiveScan, r: Result<Vec<u8>, String>) -> bool {
    match s {
        ArchiveScan::NotFound => r matches Err(m) && m@ == "could not find 'diagram.exe' in archive"@,
        ArchiveScan::Failed => r is Err,
        ArchiveScan::Found(b) => r matches Ok(v) && v@ == b,
    }
}

/// The release binary in an opened zip archive: the contents of the first member named
/// `diagram.exe`, at the top or in a folder. Members are looked at in order; a member whose name
/// cannot be read ends the search with that error.
pub fn find_zip_binary(ar: &mut ZipMembers) -> (r: Result<Vec<u8>, String>)
    ensures
        zip_names(*final(ar)) == zip_names(*old(ar)),
        zip_contents(*final(ar)) == zip_contents(*old(ar)),
        zip_scan_result(zip_scan(zip_names(*old(ar)), zip_contents(*old(ar)), 0), r),
{
    let ghost names = zip_names(*old(ar));
    let ghost contents = zip_contents(*old(ar));
    let n = zip_len(ar);
    let mut i: usize = 0;
    while i < n
        invariant
            names == zip_names(*old(ar)),
            contents == zip_contents(*old(ar)),
            n == names.len(),
            n == contents.len(),
            i <= n,
            zip_names(*ar) == names,
            zip_contents(*ar) == contents,
            zip_scan(names, contents, 0) == zip_scan(names, contents, i as int),
        decreases n - i,
    {
        let name = match zip_member_name(ar, i) {
            Ok(name) => name,
            Err(e) => return Err(e),
        };
        if zip_member_is_binary(name.as_str()) {
            return zip_member_bytes(ar, i);
        }
        i += 1;
    }
    proof {
        reveal_strlit("could not find 'diagram.exe' in archive");
    }
    Err(string_from(&chars_of("could not find 'diagram.exe' in archive")))
}

/// The release binary from the bytes of a zip archive: bytes that `zip::ZipArchive::new`
/// refuses give an error (the reader's message); otherwise the result of the search of
/// `find_zip_binary` over the members it finds.
pub fn extract_zip(data: Vec<u8>) -> (r: Result<Vec<u8>, String>)
    ensures
        match zip_listing(data@) {
            None => r is Err,
            Some(l) => zip_scan_result(zip_scan(l.0, l.1, 0), r),
        },
{
    match zip_open(data) {
        Ok(mut ar) => find_zip_binary(&mut ar),
        Err(e) => Err(e),
    }
}

/// Whether a tar member (by its file name, when it has one that is UTF-8) is the release
/// binary, named `diagram`.
pub fn tar_member_is_binary(file_name: Option<&str>) -> (b: bool)
    ensures
        b == (file_name matches Some(n) && n@ == "diagram"@),
{
    match file_name {
        Some(n) => eq_str(chars_of(n).as_slice(), "diagram"),
        None => false,
    }
}


/// A gzip-compressed tar archive read from bytes held in memory. `tar::Archive`,
/// `tar::Entries` and `tar::Entry` are generic over a reader bounded by `std::io::Read`, a
/// bound that Verus does not take in a type declaration, so they are held in fields out of
/// its sight and spoken of through `tar_gz_fresh`, `tar_rest` and the member names below.
#[verifier::external_body]
pub struct TarGzArchive<'b> {
    archive: tar::Archive<GzDecoder<&'b [u8]>>,
}

/// The stream of members of a `TarGzArchive` (`tar::Entries`).
#[verifier::external_body]
pub struct TarStream<'a, 'b> {
    entries: tar::Entries<'a, GzDecoder<&'b [u8]>>,
}

/// One member of a `TarGzArchive` (`tar::Entry`).
#[verifier::external_body]
pub struct TarMember<'a, 'b> {
    entry: tar::Entry<'a, GzDecoder<&'b [u8]>>,
}

/// One item of the stream of a tar archive's members.
pub enum TarItem {
    /// A member: its file name as read from its path (`None` where the path cannot be read;
    /// `Some(None)` where the path has no file name, or one that is not UTF-8), and its bytes
    /// (`None` where reading them fails).
    Member(Option<Option<Seq<char>>>, Option<Seq<u8>>),
    /// An error, which ends the stream.
    Failed,
}

/// The items that `tar::Archive::entries` yields, one by one, over the gzip-decoded bytes
/// `data`: a function of the bytes alone.
pub uninterp spec fn tar_gz_items(data: Seq<u8>) -> Seq<TarItem>;

/// `Some` of the bytes an archive reads, while nothing has been read from it yet.
pub uninterp spec fn tar_gz_fresh(ar: TarGzArchive<'_>) -> Option<Seq<u8>>;

/// The items that a stream of members has still to yield.
pub uninterp spec fn tar_rest(it: TarStream<'_, '_>) -> Seq<TarItem>;

/// A member's file name, as `TarItem::Member` gives it.
pub uninterp spec fn tar_member_name(m: TarMember<'_, '_>) -> Option<Option<Seq<char>>>;

/// A member's bytes, as `TarItem::Member` gives them.
pub uninterp spec fn tar_member_data(m: TarMember<'_, '_>) -> Option<Seq<u8>>;

/// Calls `flate2::read::GzDecoder::new` and `tar::Archive::new` over the bytes.
#[verifier::external_body]
fn tar_gz_open<'b>(data: &'b [u8]) -> (r: TarGzArchive<'b>)
    ensures
        tar_gz_fresh(r) == Some(data@),
{
    TarGzArchive { archive: tar::Archive::new(GzDecoder::new(data)) }
}

/// Calls `tar::Archive::entries`, which succeeds on an archive that nothing has been read
/// from. A failure is handed back as its message.
#[verifier::external_body]
fn tar_entries<'a, 'b>(ar: &'a mut TarGzArchive<'b>) -> (r: Result<TarStream<'a, 'b>, String>)
    ensures
        tar_gz_fresh(*old(ar)) matches Some(d) ==> (r matches Ok(it) && tar_rest(it) == tar_gz_items(d)),
{
    ar.archive.entries().map(|entries| TarStream { entries }).map_err(|e| e.to_string())
}

/// Calls `Iterator::next` on the stream of members: the next item, or `None` at the end.
#[verifier::external_body]
fn tar_next<'a, 'b>(it: &mut TarStream<'a, 'b>) -> (r: Option<Result<TarMember<'a, 'b>, String>>)
    ensures
        tar_rest(*old(it)).len() == 0 ==> r is None,
        tar_rest(*old(it)).len() > 0 ==> {
            &&& tar_rest(*final(it)) == tar_rest(*old(it)).drop_first()
            &&& match tar_rest(*old(it))[0] {
                TarItem::Member(n, d) => r matches Some(Ok(m)) && tar_member_name(m) == n
                    && tar_member_data(m) == d,
                TarItem::Failed => r matches Some(Err(_)),
            }
        },
{
    it.entries.next().map(|e| e.map(|entry| TarMember { entry }).map_err(|e| e.to_string()))
}

/// Calls `tar::Entry::path`, then `Path::file_name` and `OsStr::to_str`. A failure is handed
/// back as its message.
#[verifier::external_body]
fn tar_file_name(m: &TarMember<'_, '_>) -> (r: Result<Option<String>, String>)
    ensures
        match (r, tar_member_name(*m)) {
            (Err(_), None) => true,
            (Ok(None), Some(None)) => true,
            (Ok(Some(s)), Some(Some(t))) => s@ == t,
            _ => false,
        },
{
    let path = m.entry.path().map_err(|e| e.to_string())?;
    Ok(path.file_name().and_then(|n| n.to_str()).map(|n| n.to_string()))
}

/// Reads a member to its end (`std::io::Read::read_to_end`). A failure is handed back as its
/// message.
#[verifier::external_body]
fn tar_read(m: &mut TarMember<'_, '_>) -> (r: Result<Vec<u8>, String>)
    ensures
        match tar_member_data(*old(m)) {
            Some(b) => r matches Ok(v) && v@ == b,
            None => r is Err,
        },
{
    let mut bytes = Vec::new();
    std::io::Read::read_to_end(&mut m.entry, &mut bytes).map_err(|e| e.to_string())?;
    Ok(bytes)
}

/// The search of a tar archive's members, from item `i` on: an item that is an error, or a
/// member whose path cannot be read, ends it with a failure; the first member whose file name
/// is `diagram` ends it with its bytes, or with a failure where they cannot be read.
pub open spec fn tar_scan(items: Seq<TarItem>, i: int) -> ArchiveScan
    decreases items.len() - i,
{
    if i < 0 || i >= items.len() {
        ArchiveScan::NotFound
    } else {
        match items[i] {
            TarItem::Failed => ArchiveScan::Failed,
            TarItem::Member(n, d) => match n {
                None => ArchiveScan::Failed,
                Some(f) => if f == Some("diagram"@) {
                    match d {
                        Some(b) => ArchiveScan::Found(b),
                        None => ArchiveScan::Failed,
                    }
                } else {
                    tar_scan(items, i + 1)
                },
            },
        }
    }
}

/// What the search of a tar archive returns for each way it ends.
pub open spec fn tar_scan_result(s: ArchiveScan, r: Result<Vec<u8>, String>) -> bool {
    match s {
        ArchiveScan::NotFound => r matches Err(m) && m@ == "could not find 'diagram' binary in archive"@,
        ArchiveScan::Failed => r is Err,
        ArchiveScan::Found(b) => r matches Ok(v) && v@ == b,
    }
}

/// The release binary from the bytes of a gzip-compressed tar archive: the bytes of the first
/// member whose file name is `diagram`.
pub fn extract_tar_gz(data: &[u8]) -> (r: Result<Vec<u8>, String>)
    ensures
        tar_scan_result(tar_scan(tar_gz_items(data@), 0), r),
{
    let ghost items = tar_gz_items(data@);
    let mut ar = tar_gz_open(data);
    let mut it = match tar_entries(&mut ar) {
        Ok(it) => it,
        Err(e) => return Err(e),
    };
    let ghost mut i: int = 0;
    loop
        invariant
            items == tar_gz_items(data@),
            0 <= i <= items.len(),
            tar_rest(it) == items.skip(i),
            tar_scan(items, 0) == tar_scan(items, i),
        decreases items.len() - i,
    {
        proof {
            if i < items.len() {
                assert(items.skip(i)[0] == items[i]);
            }
        }
        match tar_next(&mut it) {
            None => {
                proof {
                    reveal_strlit("could not find 'diagram' binary in archive");
                }
                return Err(string_from(&chars_of("could not find 'diagram' binary in archive")));
            },
            Some(Err(e)) => {
                return Err(e);
            },
            Some(Ok(mut m)) => {
                let name = match tar_file_name(&m) {
                    Ok(name) => name,
                    Err(e) => return Err(e),
                };
                let is_binary = match &name {
                    Some(n) => tar_member_is_binary(Some(n.as_str())),
                    None => tar_member_is_binary(None),
                };
                if is_binary {
                    return tar_read(&mut m);
                }
                proof {
                    assert(items.skip(i).drop_first() == items.skip(i + 1));
                    i = i + 1;
                }
            },
        }
    }
}

/// The string value of the top-level field `key` of the JSON text `body`: `None` when `body`
/// is not JSON, `Some(None)` when the field is absent or not a string.
pub uninterp spec fn json_string_field(body: Seq<char>, key: Seq<char>) -> Option<Option<Seq<char>>>;

/// Calls `serde_json::from_str` into a `serde_json::Value` and reads `value[key].as_str()`;
/// the result is named by `json_string_field`. A parse error is handed back as its message.
#[verifier::external_body]
fn json_field(body: &str, key: &str) -> (r: Result<Option<String>, String>)
    ensures
        match r {
            Ok(Some(s)) => json_string_field(body@, key@) == Some(Some(s@)),
            Ok(None) => json_string_field(body@, key@) == Some(None::<Seq<char>>),
            Err(_) => json_string_field(body@, key@) is None,
        },
{
    serde_json::from_str::<serde_json::Value>(body)
        .map(|v| v[key].as_str().map(|s| s.to_string()))
        .map_err(|e| e.to_string())
}

/// Why the latest release tag could not be read.
#[derive(Debug)]
pub enum TagError {
    /// The response is not JSON (the parser's message).
    Json(String),
    /// The response has no string `tag_name`.
    Missing,
}

/// The `tag_name` of a release, from the JSON of the release API's response.
pub fn release_tag(body: &str) -> (r: Result<String, TagError>)
    ensures
        match json_string_field(body@, "tag_name"@) {
            None => r matches Err(TagError::Json(_)),
            Some(None) => r matches Err(TagError::Missing),
            Some(Some(t)) => r matches Ok(s) && s@ == t,
        },
{
    match json_field(body, "tag_name") {
        Ok(Some(t)) => Ok(t),
        Ok(None) => Err(TagError::Missing),
        Err(e) => Err(TagError::Json(e)),
    }
}

/// Versions with a `-` (pre-release or development builds) skip the update check.
pub fn is_dev_build(version: &str) -> (b: bool)
    ensures
        b == version@.contains('-'),
{
    let v = chars_of(version);
    match crate::parse::find_char(v.as_slice(), '-') {
        Some(k) => {
            assert(v@[k as int] == '-') by {
                crate::parse::lemma_first_index(v@, '-');
            }
            true
        },
        None => {
            proof {
                crate::parse::lemma_first_index(v@, '-');
            }
            false
        },
    }
}

/// `a` is a later version than `b` (field by field, major first).
pub open spec fn version_gt(a: (u32, u32, u32), b: (u32, u32, u32)) -> bool {
    a.0 > b.0 || (a.0 == b.0 && (a.1 > b.1 || (a.1 == b.1 && a.2 > b.2)))
}

/// Versions are ordered field by field, major first: a later major version is newer whatever
/// follows, an earlier one is not; with equal majors the minor decides in the same way; with
/// equal major and minor a later patch is newer and no other is. The order is strict, total
/// and transitive: no version is newer than itself, of two different versions exactly one is
/// the newer, and newer than newer is newer.
pub proof fn lemma_version_order(a: (u32, u32, u32), b: (u32, u32, u32), c: (u32, u32, u32))
    ensures
        a.0 > b.0 ==> version_gt(a, b),
        a.0 < b.0 ==> !version_gt(a, b),
        a.0 == b.0 && a.1 > b.1 ==> version_gt(a, b),
        a.0 == b.0 && a.1 < b.1 ==> !version_gt(a, b),
        a.0 == b.0 && a.1 == b.1 ==> (version_gt(a, b) <==> a.2 > b.2),
        !version_gt(a, a),
        a != b ==> (version_gt(a, b) <==> !version_gt(b, a)),
        version_gt(a, b) && version_gt(b, c) ==> version_gt(a, c),
{
}

/// The version to update to: the latest release's tag without its leading `v`s, when that is
/// later than the current version.
pub fn newer_version(latest_tag: &str, current: &str) -> (r: Option<String>)
    ensures
        version_gt(version_spec(strip_vs(latest_tag@)), version_spec(current@)) ==> (r matches Some(
            s,
        ) && s@ == strip_vs(latest_tag@)),
        !version_gt(version_spec(strip_vs(latest_tag@)), version_spec(current@)) ==> r is None,
{
    let all = chars_of(latest_tag);
    let mut i: usize = 0;
    assert(all@.subrange(0, all@.len() as int) == all@);
    while i < all.len() && all[i] == 'v'
        invariant
            i <= all.len(),
            all@ == latest_tag@,
            strip_vs(all@.subrange(i as int, all@.len() as int)) == strip_vs(latest_tag@),
        decreases all.len() - i,
    {
        assert(all@.subrange(i as int, all@.len() as int).drop_first() == all@.subrange(
            i + 1,
            all@.len() as int,
        ));
        i += 1;
    }
    let latest = string_from(&sub_chars(all.as_slice(), i, all.len()));
    let a = parse_version(latest.as_str());
    let b = parse_version(current);
    if a.0 > b.0 || (a.0 == b.0 && (a.1 > b.1 || (a.1 == b.1 && a.2 > b.2))) {
        Some(latest)
    } else {
        None
    }
}

/// The download address of a release archive.
pub fn release_url(repo: &str, version: &str, archive: &str) -> (u: String)
    ensures
        u@ == "https://github.com/"@ + repo@ + "/releases/download/v"@ + version@ + "/"@ + archive@,
{
    let mut u = string_from(&chars_of("https://github.com/"));
    push_chars(&mut u, chars_of(repo).as_slice());
    push_chars(&mut u, chars_of("/releases/download/v").as_slice());
    push_chars(&mut u, chars_of(version).as_slice());
    push_chars(&mut u, chars_of("/").as_slice());
    push_chars(&mut u, chars_of(archive).as_slice());
    u
}

} // verus!
