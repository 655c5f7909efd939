//! Relative paths inside the repository and under declared save paths.

use vstd::prelude::*;
use crate::games::paths::segments;
use crate::utils::text::{extend_chars, from_chars, to_chars};

verus! {

/// Trusted: the project directories of the directories crate.
#[verifier::external_type_specification]
#[verifier::external_body]
pub struct ExProjectDirs(directories::ProjectDirs);

/// Why a directory of the application could not be named.
#[derive(Clone, Copy, Debug, PartialEq, Eq, Structural)]
pub enum DirectoryError {
    /// The system gives no project directories, for want of a home directory.
    NoProjectDirectories,
    /// The directory's path is not text.
    NotText,
}

impl DirectoryError {
    /// The text that shows the failure.
    pub fn message(&self) -> (r: &'static str)
        ensures
            r@ == (match self {
                DirectoryError::NoProjectDirectories => "did not get project directories"@,
                DirectoryError::NotText => "the project directory is not valid text"@,
            }),
    {
        match self {
            DirectoryError::NoProjectDirectories => "did not get project directories",
            DirectoryError::NotText => "the project directory is not valid text",
        }
    }
}

/// Trusted: `ProjectDirs::from` of the directories crate, for the project of
/// the given names. The result depends on the environment, so nothing is
/// stated of it.
#[verifier::external_body]
fn project_dirs(qualifier: &str, organization: &str, application: &str) -> Option<directories::ProjectDirs> {
    directories::ProjectDirs::from(qualifier, organization, application)
}

/// Trusted: `ProjectDirs::config_local_dir` of the directories crate, as text
/// where the path is text.
#[verifier::external_body]
fn config_local_dir(dirs: &directories::ProjectDirs) -> (r: Option<String>) {
    dirs.config_local_dir().to_str().map(String::from)
}

/// Trusted: `ProjectDirs::data_local_dir` of the directories crate, as text
/// where the path is text.
#[verifier::external_body]
fn data_local_dir(dirs: &directories::ProjectDirs) -> (r: Option<String>) {
    dirs.data_local_dir().to_str().map(String::from)
}

/// A directory of the application, from what the system gave: the outer option
/// says whether there are project directories, the inner whether the
/// directory's path is text.
pub fn directory_from(found: Option<Option<String>>) -> (r: Result<String, DirectoryError>)
    ensures
        r == (match found {
            None => Err::<String, DirectoryError>(DirectoryError::NoProjectDirectories),
            Some(None) => Err::<String, DirectoryError>(DirectoryError::NotText),
            Some(Some(path)) => Ok::<String, DirectoryError>(path),
        }),
{
    match found {
        None => Err(DirectoryError::NoProjectDirectories),
        Some(None) => Err(DirectoryError::NotText),
        Some(Some(path)) => Ok(path),
    }
}

/// The directory that holds the configuration of the application on this
/// device. Which directory that is, and whether there is one, is the system's
/// to say.
pub fn config_dir() -> (r: Result<String, DirectoryError>) {
    let found = match application_dirs() {
        Some(dirs) => Some(config_local_dir(&dirs)),
        None => None,
    };
    directory_from(found)
}

/// The directory that holds the data of the application on this device: the
/// synced manifests. Which directory that is, and whether there is one, is the
/// system's to say.
pub fn data_dir() -> (r: Result<String, DirectoryError>) {
    let found = match application_dirs() {
        Some(dirs) => Some(data_local_dir(&dirs)),
        None => None,
    };
    directory_from(found)
}

/// The project directories of this application, if the system gives any.
fn application_dirs() -> (r: Option<directories::ProjectDirs>) {
    project_dirs("org", "GameSaveSync", "GameSaveSync")
}

/// The parts that are not empty, in order.
pub open spec fn nonempty(parts: Seq<Seq<char>>) -> Seq<Seq<char>>
    decreases parts.len(),
{
    if parts.len() == 0 {
        Seq::<Seq<char>>::empty()
    } else if parts.last().len() > 0 {
        nonempty(parts.drop_last()).push(parts.last())
    } else {
        nonempty(parts.drop_last())
    }
}

/// `base` followed by each part in turn, with a separator before a part unless
/// nothing precedes it.
pub open spec fn appended(base: Seq<char>, parts: Seq<Seq<char>>) -> Seq<char>
    decreases parts.len(),
{
    if parts.len() == 0 {
        base
    } else {
        let before = appended(base, parts.drop_last());
        if before.len() > 0 {
            before + seq!['/'] + parts.last()
        } else {
            parts.last()
        }
    }
}

/// The local path of a relative path under `base`: `base` followed by the
/// non-empty segments of the relative path.
pub open spec fn local_path_of(relative: Seq<char>, base: Seq<char>) -> Seq<char> {
    appended(base, nonempty(segments(relative)))
}

/// A relative path extended by another: one leading separator of `path` is
/// dropped, and a separator is put between the two unless `base` is empty or
/// already ends with one.
pub open spec fn relative_joined(base: Seq<char>, path: Seq<char>) -> Seq<char> {
    let tail = if path.len() > 0 && path[0] == '/' {
        path.subrange(1, path.len() as int)
    } else {
        path
    };
    if base.len() > 0 && base.last() != '/' {
        base + seq!['/'] + tail
    } else {
        base + tail
    }
}

/// Trusted: `RelativePath::join` of the relative-path crate. It copies `base`
/// and pushes `path` onto it; the push drops one leading separator of `path`
/// and first adds a separator when `base` is not empty and does not end with
/// one.
#[verifier::external_body]
pub(crate) fn relative_join(base: &str, path: &str) -> (r: String)
    ensures
        r@ == relative_joined(base@, path@),
{
    relative_path::RelativePath::new(base).join(path).into_string()
}

/// What a list of strings says, in order.
pub open spec fn string_texts(parts: Seq<String>) -> Seq<Seq<char>> {
    Seq::new(parts.len(), |i: int| parts[i]@)
}

/// Trusted: `RelativePath::components` of the relative-path crate, each
/// component as text. The components are the non-empty segments of the
/// relative path between its separators, in order; the segments `.` and `..`
/// are components like the others.
#[verifier::external_body]
fn relative_components(relative: &str) -> (r: Vec<String>)
    ensures
        string_texts(r@) == nonempty(segments(relative@)),
{
    relative_path::RelativePath::new(relative).components().map(|c| c.as_str().to_string()).collect()
}

/// The local path of a relative path under `base`: `base` followed by each
/// component of the relative path, with a separator before it unless nothing
/// precedes it.
pub(crate) fn relative_to_path(relative: &str, base: &str) -> (r: String)
    ensures
        r@ == local_path_of(relative@, base@),
{
    let parts = relative_components(relative);
    let ghost all = string_texts(parts@);
    let mut out = to_chars(base);
    let mut i: usize = 0;
    assert(all.subrange(0, 0) =~= Seq::<Seq<char>>::empty());
    while i < parts.len()
        invariant
            i <= parts.len(),
            all == string_texts(parts@),
            out@ == appended(base@, all.subrange(0, i as int)),
        decreases parts.len() - i,
    {
        let ghost next = all.subrange(0, i + 1);
        assert(next.drop_last() =~= all.subrange(0, i as int));
        assert(next.last() == parts@[i as int]@);
        let ghost before = out@;
        if out.len() > 0 {
            out.push('/');
        }
        let part = to_chars(parts[i].as_str());
        extend_chars(&mut out, &part);
        assert(out@ =~= (if before.len() > 0 {
            before + seq!['/'] + next.last()
        } else {
            next.last()
        }));
        i += 1;
    }
    assert(all.subrange(0, parts.len() as int) =~= all);
    from_chars(&out)
}

/// Whether a character may not stand in a path segment as it is: a separator
/// of some platform, a character that some file system refuses, a control
/// character, or the escape character itself.
pub open spec fn needs_escape(c: char) -> bool {
    ||| c == '/'
    ||| c == '\\'
    ||| c == ':'
    ||| c == '*'
    ||| c == '?'
    ||| c == '"'
    ||| c == '<'
    ||| c == '>'
    ||| c == '|'
    ||| c == '%'
    ||| (c as u32) < 32
    ||| (c as u32) == 127
}

/// The hexadecimal digit for a value below sixteen.
pub open spec fn hex_digit(n: int) -> char {
    if n == 0 {
        '0'
    } else if n == 1 {
        '1'
    } else if n == 2 {
        '2'
    } else if n == 3 {
        '3'
    } else if n == 4 {
        '4'
    } else if n == 5 {
        '5'
    } else if n == 6 {
        '6'
    } else if n == 7 {
        '7'
    } else if n == 8 {
        '8'
    } else if n == 9 {
        '9'
    } else if n == 10 {
        'A'
    } else if n == 11 {
        'B'
    } else if n == 12 {
        'C'
    } else if n == 13 {
        'D'
    } else if n == 14 {
        'E'
    } else {
        'F'
    }
}

/// The escape of a character: the escape character and the two hexadecimal
/// digits of its code.
pub open spec fn escaped(c: char) -> Seq<char> {
    seq!['%', hex_digit((c as u32) as int / 16), hex_digit((c as u32) as int % 16)]
}

/// What stands for one character of a declared path. A dot that starts the
/// path is escaped too, so that the result is never `.` or `..`.
pub open spec fn safe_char(c: char, first: bool) -> Seq<char> {
    if needs_escape(c) || (first && c == '.') {
        escaped(c)
    } else {
        seq![c]
    }
}

/// What stands for each character of a declared path, in order.
pub open spec fn safe_text(s: Seq<char>) -> Seq<char>
    decreases s.len(),
{
    if s.len() == 0 {
        Seq::<char>::empty()
    } else {
        safe_text(s.drop_last()) + safe_char(s.last(), s.len() == 1)
    }
}

/// The name under which the files of a declared path are stored: the path with
/// every unsafe character escaped. The empty path is stored under a lone escape
/// character.
pub open spec fn path_safe(s: Seq<char>) -> Seq<char> {
    if s.len() == 0 {
        seq!['%']
    } else {
        safe_text(s)
    }
}

/// The value of a hexadecimal digit.
pub open spec fn hex_value(c: char) -> int {
    if c == '0' {
        0
    } else if c == '1' {
        1
    } else if c == '2' {
        2
    } else if c == '3' {
        3
    } else if c == '4' {
        4
    } else if c == '5' {
        5
    } else if c == '6' {
        6
    } else if c == '7' {
        7
    } else if c == '8' {
        8
    } else if c == '9' {
        9
    } else if c == 'A' {
        10
    } else if c == 'B' {
        11
    } else if c == 'C' {
        12
    } else if c == 'D' {
        13
    } else if c == 'E' {
        14
    } else {
        15
    }
}

/// The declared path that a safe name stands for: read from the end, where the
/// third character from the end is the escape character the last three
/// characters stand for the character with that code, and otherwise the last
/// character stands for itself.
pub open spec fn safe_text_source(t: Seq<char>) -> Seq<char>
    decreases t.len(),
{
    if t.len() == 0 {
        Seq::<char>::empty()
    } else if t.len() >= 3 && t[t.len() - 3] == '%' {
        safe_text_source(t.subrange(0, t.len() - 3)).push(
            ((16 * hex_value(t[t.len() - 2]) + hex_value(t[t.len() - 1])) as u8) as char,
        )
    } else {
        safe_text_source(t.drop_last()).push(t.last())
    }
}

/// What stands for one character holds no separator, does not end in the
/// escape character, and reads back as the character.
pub proof fn lemma_safe_char(c: char, first: bool)
    ensures
        safe_char(c, first).len() == 1 || safe_char(c, first).len() == 3,
        forall|i: int| 0 <= i < safe_char(c, first).len() ==> safe_char(c, first)[i] != '/',
        safe_char(c, first).last() != '%',
        safe_char(c, first).len() == 3 ==> safe_char(c, first)[0] == '%' && safe_char(c, first)[1]
            != '%' && ((16 * hex_value(safe_char(c, first)[1]) + hex_value(
            safe_char(c, first)[2],
        )) as u8) as char == c,
        safe_char(c, first).len() == 1 ==> safe_char(c, first)[0] == c && c != '%',
        first ==> safe_char(c, first)[0] != '.',
{
    if needs_escape(c) || (first && c == '.') {
        let code = (c as u32) as int;
        assert(code < 128);
        let high = code / 16;
        let low = code % 16;
        assert(0 <= high < 8 && 0 <= low < 16);
        assert(hex_value(hex_digit(high)) == high);
        assert(hex_value(hex_digit(low)) == low);
        assert(16 * high + low == code);
        assert((code as u8) as char == c);
        assert(hex_digit(high) != '/' && hex_digit(high) != '%');
        assert(hex_digit(low) != '/' && hex_digit(low) != '%');
    }
}

/// What stands for a declared path holds no separator, does not show the escape
/// character in its last two places, does not begin with a dot, and is empty
/// only for the empty path.
pub proof fn lemma_safe_text(s: Seq<char>)
    ensures
        safe_text(s).len() >= s.len(),
        forall|i: int| 0 <= i < safe_text(s).len() ==> safe_text(s)[i] != '/',
        safe_text(s).len() >= 1 ==> safe_text(s).last() != '%' && safe_text(s)[0] != '.',
        safe_text(s).len() >= 2 ==> safe_text(s)[safe_text(s).len() - 2] != '%',
    decreases s.len(),
{
    if s.len() > 0 {
        let before = safe_text(s.drop_last());
        let piece = safe_char(s.last(), s.len() == 1);
        lemma_safe_text(s.drop_last());
        lemma_safe_char(s.last(), s.len() == 1);
        let whole = before + piece;
        assert(whole == safe_text(s));
        assert forall|i: int| 0 <= i < whole.len() implies whole[i] != '/' by {
            if i >= before.len() {
                assert(whole[i] == piece[i - before.len()]);
            }
        }
        assert(whole.last() == piece.last());
        if s.len() == 1 {
            assert(s.drop_last() =~= Seq::<char>::empty());
            assert(before.len() == 0);
            assert(whole[0] == piece[0]);
        } else {
            assert(whole[0] == before[0]);
        }
        if piece.len() == 1 {
            if whole.len() >= 2 {
                assert(whole[whole.len() - 2] == before.last());
            }
        } else {
            assert(whole[whole.len() - 2] == piece[1]);
        }
    }
}

/// The declared path can be read back from what stands for it.
pub proof fn lemma_safe_text_reads_back(s: Seq<char>)
    ensures
        safe_text_source(safe_text(s)) == s,
    decreases s.len(),
{
    if s.len() > 0 {
        let before = safe_text(s.drop_last());
        let piece = safe_char(s.last(), s.len() == 1);
        lemma_safe_text(s.drop_last());
        lemma_safe_char(s.last(), s.len() == 1);
        lemma_safe_text_reads_back(s.drop_last());
        let whole = before + piece;
        assert(whole == safe_text(s));
        if piece.len() == 3 {
            assert(whole[whole.len() - 3] == piece[0]);
            assert(whole[whole.len() - 2] == piece[1]);
            assert(whole[whole.len() - 1] == piece[2]);
            assert(whole.subrange(0, whole.len() - 3) =~= before);
            assert(safe_text_source(whole) =~= s.drop_last().push(s.last()));
        } else {
            assert(whole.last() == s.last());
            assert(whole.drop_last() =~= before);
            if whole.len() >= 3 {
                assert(whole[whole.len() - 3] == before[before.len() - 2]);
            }
            assert(safe_text_source(whole) =~= s.drop_last().push(s.last()));
        }
        assert(s.drop_last().push(s.last()) =~= s);
    } else {
        assert(safe_text(s) =~= Seq::<char>::empty());
        assert(s =~= Seq::<char>::empty());
    }
}

/// Distinct declared paths get distinct safe names.
pub proof fn lemma_path_safe_injective(a: Seq<char>, b: Seq<char>)
    requires
        path_safe(a) == path_safe(b),
    ensures
        a == b,
{
    lemma_safe_text(a);
    lemma_safe_text(b);
    lemma_safe_text_reads_back(a);
    lemma_safe_text_reads_back(b);
    if a.len() == 0 {
        if b.len() > 0 {
            assert(seq!['%'].last() == '%');
            assert(false);
        }
        assert(a =~= b);
    } else if b.len() == 0 {
        assert(seq!['%'].last() == '%');
        assert(false);
    }
}

/// A safe name can stand as one path segment: it is not empty, holds no
/// separator, and is neither `.` nor `..`.
pub proof fn lemma_path_safe_is_segment(s: Seq<char>)
    ensures
        path_safe(s).len() > 0,
        forall|i: int| 0 <= i < path_safe(s).len() ==> path_safe(s)[i] != '/',
        path_safe(s) != seq!['.'],
        path_safe(s) != seq!['.', '.'],
{
    lemma_safe_text(s);
    if s.len() == 0 {
        assert(path_safe(s)[0] == '%');
    }
    assert(seq!['.'][0] == '.');
    assert(seq!['.', '.'][0] == '.');
}

fn hex_char(n: u32) -> (c: char)
    requires
        n < 16,
    ensures
        c == hex_digit(n as int),
{
    if n == 0 {
        '0'
    } else if n == 1 {
        '1'
    } else if n == 2 {
        '2'
    } else if n == 3 {
        '3'
    } else if n == 4 {
        '4'
    } else if n == 5 {
        '5'
    } else if n == 6 {
        '6'
    } else if n == 7 {
        '7'
    } else if n == 8 {
        '8'
    } else if n == 9 {
        '9'
    } else if n == 10 {
        'A'
    } else if n == 11 {
        'B'
    } else if n == 12 {
        'C'
    } else if n == 13 {
        'D'
    } else if n == 14 {
        'E'
    } else {
        'F'
    }
}

fn char_needs_escape(c: char) -> (r: bool)
    ensures
        r == needs_escape(c),
{
    let code: u32 = c as u32;
    c == '/' || c == '\\' || c == ':' || c == '*' || c == '?' || c == '"' || c == '<' || c == '>'
        || c == '|' || c == '%' || code < 32 || code == 127
}

/// Turns a declared path into a name that is safe as one path segment. Distinct
/// declared paths get distinct names.
pub fn make_path_safe(path: &str) -> (r: String)
    ensures
        r@ == path_safe(path@),
{
    let chars = to_chars(path);
    let mut out: Vec<char> = Vec::new();
    if chars.len() == 0 {
        out.push('%');
        return from_chars(&out);
    }
    let mut i: usize = 0;
    assert(chars@.subrange(0, 0) =~= Seq::<char>::empty());
    while i < chars.len()
        invariant
            i <= chars.len(),
            out@ == safe_text(chars@.subrange(0, i as int)),
        decreases chars.len() - i,
    {
        let c = chars[i];
        let ghost next = chars@.subrange(0, i + 1);
        assert(next.drop_last() =~= chars@.subrange(0, i as int));
        assert(next.last() == c);
        if char_needs_escape(c) || (i == 0 && c == '.') {
            let code: u32 = c as u32;
            assert(code < 128);
            out.push('%');
            out.push(hex_char(code / 16));
            out.push(hex_char(code % 16));
            assert(out@ =~= safe_text(chars@.subrange(0, i as int)) + escaped(c));
        } else {
            out.push(c);
            assert(out@ =~= safe_text(chars@.subrange(0, i as int)) + seq![c]);
        }
        i += 1;
    }
    assert(chars@.subrange(0, chars.len() as int) =~= chars@);
    from_chars(&out)
}

} // verus!
