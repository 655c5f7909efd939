//! Resolution of declared save paths into absolute local paths.
//!
//! A declared path is text with `/` between its segments. A segment that is one
//! of the home tokens (`<home>`, `$HOME`, `~`) stands for the home directory.
//! Resolution replaces those segments, joins the segments again and rejects a
//! result that is not absolute or that is the home directory or one of its
//! ancestors. Whether a path is an ancestor of another is judged on the text
//! of the two, with parent segments carried out: `~/..` is the parent of the
//! home directory and is rejected.

use vstd::prelude::*;
use vstd::string::*;
use crate::utils::text::{chars_eq, extend_chars, from_chars, to_chars};

verus! {

/// The segments of `s` between separators. There is always at least one: the
/// empty text has one empty segment, and a trailing separator is followed by
/// an empty segment.
pub open spec fn segments(s: Seq<char>) -> Seq<Seq<char>>
    decreases s.len(),
{
    if s.len() == 0 {
        seq![Seq::<char>::empty()]
    } else {
        let head = segments(s.drop_last());
        if s.last() == '/' {
            head.push(Seq::<char>::empty())
        } else {
            head.drop_last().push(head.last().push(s.last()))
        }
    }
}

/// The parts with one separator between each two neighbours.
pub open spec fn joined(parts: Seq<Seq<char>>) -> Seq<char>
    decreases parts.len(),
{
    if parts.len() == 0 {
        Seq::<char>::empty()
    } else if parts.len() == 1 {
        parts[0]
    } else {
        joined(parts.drop_last()) + seq!['/'] + parts.last()
    }
}

/// Whether a segment is one of the spellings of the home directory.
pub open spec fn is_home_token(segment: Seq<char>) -> bool {
    ||| segment == seq!['<', 'h', 'o', 'm', 'e', '>']
    ||| segment == seq!['$', 'H', 'O', 'M', 'E']
    ||| segment == seq!['~']
}

/// Whether any segment of a declared path is a home token.
pub open spec fn mentions_home(path: Seq<char>) -> bool {
    exists|i: int| 0 <= i < segments(path).len() && is_home_token(#[trigger] segments(path)[i])
}

/// The parts with every home token replaced by `home`.
pub open spec fn substituted(parts: Seq<Seq<char>>, home: Seq<char>) -> Seq<Seq<char>> {
    Seq::new(
        parts.len(),
        |i: int|
            if is_home_token(parts[i]) {
                home
            } else {
                parts[i]
            },
    )
}

/// The declared path with every home token replaced by `home`.
pub open spec fn expanded(path: Seq<char>, home: Seq<char>) -> Seq<char> {
    joined(substituted(segments(path), home))
}

/// A path is absolute when it starts at the root.
pub open spec fn is_absolute(path: Seq<char>) -> bool {
    path.len() > 0 && path[0] == '/'
}

/// A segment that names something: neither empty nor the current directory.
pub open spec fn is_named(segment: Seq<char>) -> bool {
    segment.len() > 0 && segment != seq!['.']
}

/// The named parts, in order.
pub open spec fn named(parts: Seq<Seq<char>>) -> Seq<Seq<char>>
    decreases parts.len(),
{
    if parts.len() == 0 {
        Seq::<Seq<char>>::empty()
    } else if is_named(parts.last()) {
        named(parts.drop_last()).push(parts.last())
    } else {
        named(parts.drop_last())
    }
}

/// Whether a segment stands for the parent directory.
pub open spec fn is_parent(segment: Seq<char>) -> bool {
    segment == seq!['.', '.']
}

/// The parts with every parent segment carried out: a parent segment takes
/// away the part before it, and where no part is before it, at the root, it
/// is dropped.
pub open spec fn folded(parts: Seq<Seq<char>>) -> Seq<Seq<char>>
    decreases parts.len(),
{
    if parts.len() == 0 {
        Seq::<Seq<char>>::empty()
    } else if is_parent(parts.last()) {
        let before = folded(parts.drop_last());
        if before.len() > 0 {
            before.drop_last()
        } else {
            before
        }
    } else {
        folded(parts.drop_last()).push(parts.last())
    }
}

/// The components that identify a path: its named segments, with the parent
/// segments among them carried out. The path is read as text: links are not
/// followed. Two absolute paths denote the same location exactly when their
/// components are equal.
pub open spec fn components(path: Seq<char>) -> Seq<Seq<char>> {
    folded(named(segments(path)))
}

/// Whether `outer` is `inner` itself or one of its ancestors.
pub open spec fn covers(outer: Seq<char>, inner: Seq<char>) -> bool {
    &&& is_absolute(outer)
    &&& is_absolute(inner)
    &&& components(outer).is_prefix_of(components(inner))
}

/// The normal form of a path: for an absolute path, the root followed by its
/// components with one separator between them, so without empty segments,
/// current-directory segments and parent segments. Absolute paths that denote
/// the same location have the same normal form. Other paths are left as they
/// are.
pub open spec fn normalized(path: Seq<char>) -> Seq<char> {
    if is_absolute(path) {
        seq!['/'] + joined(components(path))
    } else {
        path
    }
}

/// A path extended by another as the platform joins paths: an absolute `path`
/// stands for itself; otherwise it follows `base`, after a separator unless
/// `base` is empty or ends with one.
pub open spec fn path_joined(base: Seq<char>, path: Seq<char>) -> Seq<char> {
    if is_absolute(path) {
        path
    } else if base.len() > 0 && base.last() != '/' {
        base + seq!['/'] + path
    } else {
        base + path
    }
}

/// Why a declared path could not be resolved.
#[derive(Clone, Copy, Debug, PartialEq, Eq, Structural)]
pub enum PathErrorKind {
    /// The path names the home directory, and none is known.
    HomeUnavailable,
    /// The resolved path is not absolute.
    InvalidPath,
    /// The resolved path is the home directory or one of its ancestors.
    PathTooBroad,
}

/// A failed resolution, with the declared path that was being resolved and
/// what the path had become: the declared path with its home tokens replaced,
/// or nothing where the home directory is not known.
#[derive(Debug)]
pub struct PathError {
    pub kind: PathErrorKind,
    pub path: String,
    pub expanded: String,
}

/// What a declared path has become when its resolution fails for the given
/// reason.
pub open spec fn failed_expansion(
    kind: PathErrorKind,
    path: Seq<char>,
    home: Option<Seq<char>>,
) -> Seq<char> {
    match kind {
        PathErrorKind::HomeUnavailable => Seq::<char>::empty(),
        _ => match home {
            Some(h) => expanded(path, h),
            None => path,
        },
    }
}

/// What a failed resolution is shown as.
pub open spec fn path_error_text(kind: PathErrorKind, path: Seq<char>, expanded: Seq<char>) -> Seq<
    char,
> {
    match kind {
        PathErrorKind::HomeUnavailable => "failed to get home directory"@,
        PathErrorKind::InvalidPath => "path "@ + expanded + " is not absolute"@,
        PathErrorKind::PathTooBroad => "path "@ + path + " is too broad"@,
    }
}

impl PathError {
    /// The text that shows the failure.
    pub fn message(&self) -> (r: String)
        ensures
            r@ == path_error_text(self.kind, self.path@, self.expanded@),
    {
        match self.kind {
            PathErrorKind::HomeUnavailable => String::from_str("failed to get home directory"),
            PathErrorKind::InvalidPath => {
                let mut text = String::from_str("path ");
                text.append(self.expanded.as_str());
                text.append(" is not absolute");
                text
            },
            PathErrorKind::PathTooBroad => {
                let mut text = String::from_str("path ");
                text.append(self.path.as_str());
                text.append(" is too broad");
                text
            },
        }
    }
}

/// What resolving `path` gives, with the home directory `home` if one is known.
pub open spec fn resolution(path: Seq<char>, home: Option<Seq<char>>) -> Result<
    Seq<char>,
    PathErrorKind,
> {
    match home {
        None => if mentions_home(path) {
            Err(PathErrorKind::HomeUnavailable)
        } else if !is_absolute(path) {
            Err(PathErrorKind::InvalidPath)
        } else {
            Ok(path)
        },
        Some(h) => if !is_absolute(expanded(path, h)) {
            Err(PathErrorKind::InvalidPath)
        } else if covers(expanded(path, h), h) {
            Err(PathErrorKind::PathTooBroad)
        } else {
            Ok(expanded(path, h))
        },
    }
}

/// The texts held by a sequence of character vectors.
pub open spec fn texts(parts: Seq<Vec<char>>) -> Seq<Seq<char>> {
    Seq::new(parts.len(), |i: int| parts[i]@)
}

/// The placeholders a declared save path may hold.
#[derive(Clone, Copy, Debug, PartialEq, Eq, Structural)]
pub enum LinuxPathReplacement {
    Home,
}

impl LinuxPathReplacement {
    /// The placeholder that `s` spells, if it spells one.
    pub fn from_str(s: &str) -> (r: Result<LinuxPathReplacement, ()>)
        ensures
            r == (if is_home_token(s@) {
                Ok::<LinuxPathReplacement, ()>(LinuxPathReplacement::Home)
            } else {
                Err::<LinuxPathReplacement, ()>(())
            }),
    {
        let chars = to_chars(s);
        if is_home_segment(&chars) {
            Ok(LinuxPathReplacement::Home)
        } else {
            Err(())
        }
    }

    /// The path the placeholder stands for: the home directory, when one is
    /// known.
    pub fn to_path(&self, home: Option<&str>) -> (r: Option<String>)
        ensures
            r.is_some() == home.is_some(),
            r matches Some(p) ==> p@ == home.unwrap()@,
    {
        match self {
            LinuxPathReplacement::Home => match home {
                Some(h) => Some(String::from_str(h)),
                None => None,
            },
        }
    }
}

fn is_home_segment(segment: &Vec<char>) -> (r: bool)
    ensures
        r == is_home_token(segment@),
{
    let n = segment.len();
    if n == 1 {
        let r = segment[0] == '~';
        assert(r == (segment@ == seq!['~'])) by {
            if r {
                assert(segment@ =~= seq!['~']);
            }
        }
        r
    } else if n == 5 {
        let r = segment[0] == '$' && segment[1] == 'H' && segment[2] == 'O' && segment[3] == 'M'
            && segment[4] == 'E';
        assert(r == (segment@ == seq!['$', 'H', 'O', 'M', 'E'])) by {
            if r {
                assert(segment@ =~= seq!['$', 'H', 'O', 'M', 'E']);
            }
        }
        r
    } else if n == 6 {
        let r = segment[0] == '<' && segment[1] == 'h' && segment[2] == 'o' && segment[3] == 'm'
            && segment[4] == 'e' && segment[5] == '>';
        assert(r == (segment@ == seq!['<', 'h', 'o', 'm', 'e', '>'])) by {
            if r {
                assert(segment@ =~= seq!['<', 'h', 'o', 'm', 'e', '>']);
            }
        }
        r
    } else {
        false
    }
}

fn is_named_segment(segment: &Vec<char>) -> (r: bool)
    ensures
        r == is_named(segment@),
{
    if segment.len() == 0 {
        false
    } else if segment.len() == 1 {
        let r = segment[0] != '.';
        assert(r == (segment@ != seq!['.'])) by {
            if !r {
                assert(segment@ =~= seq!['.']);
            }
        }
        r
    } else {
        true
    }
}

/// Splits text at its separators.
pub fn split_segments(s: &Vec<char>) -> (parts: Vec<Vec<char>>)
    ensures
        texts(parts@) == segments(s@),
{
    let mut parts: Vec<Vec<char>> = Vec::new();
    let mut current: Vec<char> = Vec::new();
    let mut i: usize = 0;
    assert(s@.subrange(0, 0) =~= Seq::<char>::empty());
    assert(texts(parts@).push(current@) =~= seq![Seq::<char>::empty()]);
    while i < s.len()
        invariant
            i <= s.len(),
            texts(parts@).push(current@) == segments(s@.subrange(0, i as int)),
        decreases s.len() - i,
    {
        let c = s[i];
        let ghost before = texts(parts@).push(current@);
        let ghost prefix = s@.subrange(0, i + 1);
        assert(prefix.drop_last() =~= s@.subrange(0, i as int));
        assert(prefix.last() == c);
        if c == '/' {
            parts.push(current);
            current = Vec::new();
            assert(texts(parts@).push(current@) =~= before.push(Seq::<char>::empty()));
        } else {
            current.push(c);
            assert(texts(parts@).push(current@) =~= before.drop_last().push(before.last().push(c)));
        }
        i += 1;
    }
    assert(s@.subrange(0, s.len() as int) =~= s@);
    let ghost before = texts(parts@).push(current@);
    parts.push(current);
    assert(texts(parts@) =~= before);
    parts
}

fn is_parent_segment(segment: &Vec<char>) -> (r: bool)
    ensures
        r == is_parent(segment@),
{
    let r = segment.len() == 2 && segment[0] == '.' && segment[1] == '.';
    assert(r == is_parent(segment@)) by {
        if r {
            assert(segment@ =~= seq!['.', '.']);
        }
    }
    r
}

/// The components of a path, in order.
pub fn path_components(s: &Vec<char>) -> (parts: Vec<Vec<char>>)
    ensures
        texts(parts@) == components(s@),
{
    let all = split_segments(s);
    let mut parts: Vec<Vec<char>> = Vec::new();
    let ghost mut kept: Seq<Seq<char>> = Seq::empty();
    let mut i: usize = 0;
    assert(texts(all@).subrange(0, 0) =~= Seq::<Seq<char>>::empty());
    assert(texts(parts@) =~= Seq::<Seq<char>>::empty());
    while i < all.len()
        invariant
            i <= all.len(),
            kept == named(texts(all@).subrange(0, i as int)),
            texts(parts@) == folded(kept),
        decreases all.len() - i,
    {
        let ghost before = texts(parts@);
        let ghost prefix = texts(all@).subrange(0, i + 1);
        assert(prefix.drop_last() =~= texts(all@).subrange(0, i as int));
        assert(prefix.last() == all@[i as int]@);
        if is_named_segment(&all[i]) {
            let ghost next = kept.push(all@[i as int]@);
            assert(next.drop_last() =~= kept);
            assert(next.last() == all@[i as int]@);
            if is_parent_segment(&all[i]) {
                if parts.len() > 0 {
                    parts.pop();
                    assert(texts(parts@) =~= before.drop_last());
                }
            } else {
                parts.push(all[i].clone());
                assert(texts(parts@) =~= before.push(all@[i as int]@));
            }
            proof {
                kept = next;
            }
        }
        i += 1;
    }
    assert(texts(all@).subrange(0, all.len() as int) =~= texts(all@));
    parts
}

/// The parts with one separator between each two neighbours.
pub fn join_parts(parts: &Vec<Vec<char>>) -> (out: Vec<char>)
    ensures
        out@ == joined(texts(parts@)),
{
    let mut out: Vec<char> = Vec::new();
    let mut i: usize = 0;
    assert(texts(parts@).subrange(0, 0) =~= Seq::<Seq<char>>::empty());
    while i < parts.len()
        invariant
            i <= parts.len(),
            out@ == joined(texts(parts@).subrange(0, i as int)),
        decreases parts.len() - i,
    {
        let ghost done = texts(parts@).subrange(0, i as int);
        let ghost next = texts(parts@).subrange(0, i + 1);
        assert(next.drop_last() =~= done);
        assert(next.last() == parts@[i as int]@);
        if i > 0 {
            out.push('/');
        }
        extend_chars(&mut out, &parts[i]);
        assert(out@ =~= joined(next)) by {
            if i > 0 {
                assert(joined(next) == joined(done) + seq!['/'] + next.last());
            }
        }
        i += 1;
    }
    assert(texts(parts@).subrange(0, parts.len() as int) =~= texts(parts@));
    out
}

/// Extends a path by another as the platform joins paths.
pub fn path_join(base: &str, path: &str) -> (r: String)
    ensures
        r@ == path_joined(base@, path@),
{
    let tail = to_chars(path);
    if tail.len() > 0 && tail[0] == '/' {
        return from_chars(&tail);
    }
    let mut out = to_chars(base);
    if out.len() > 0 && out[out.len() - 1] != '/' {
        out.push('/');
    }
    extend_chars(&mut out, &tail);
    from_chars(&out)
}

/// Whether a path starts at the root.
pub fn path_is_absolute(path: &str) -> (r: bool)
    ensures
        r == is_absolute(path@),
{
    let chars = to_chars(path);
    chars.len() > 0 && chars[0] == '/'
}

/// The normal form of a path.
pub fn normal_path(path: &str) -> (r: String)
    ensures
        r@ == normalized(path@),
{
    let chars = to_chars(path);
    if chars.len() == 0 || chars[0] != '/' {
        return from_chars(&chars);
    }
    let parts = path_components(&chars);
    let body = join_parts(&parts);
    let mut out: Vec<char> = Vec::new();
    out.push('/');
    extend_chars(&mut out, &body);
    assert(out@ =~= seq!['/'] + joined(components(path@)));
    from_chars(&out)
}

/// Whether the texts of `short` are the first texts of `long`.
fn is_prefix(short: &Vec<Vec<char>>, long: &Vec<Vec<char>>) -> (r: bool)
    ensures
        r == texts(short@).is_prefix_of(texts(long@)),
{
    if short.len() > long.len() {
        return false;
    }
    let mut i: usize = 0;
    while i < short.len()
        invariant
            i <= short.len(),
            short.len() <= long.len(),
            forall|j: int| 0 <= j < i ==> short@[j]@ == long@[j]@,
        decreases short.len() - i,
    {
        if !chars_eq(&short[i], &long[i]) {
            assert(texts(short@)[i as int] != texts(long@).subrange(0, short.len() as int)[i as int]);
            return false;
        }
        i += 1;
    }
    assert(texts(short@) =~= texts(long@).subrange(0, short.len() as int));
    true
}

/// Whether `outer` is `inner` itself or one of its ancestors.
pub fn path_covers(outer: &Vec<char>, inner: &Vec<char>) -> (r: bool)
    ensures
        r == covers(outer@, inner@),
{
    if outer.len() == 0 || outer[0] != '/' {
        return false;
    }
    if inner.len() == 0 || inner[0] != '/' {
        return false;
    }
    let a = path_components(outer);
    let b = path_components(inner);
    is_prefix(&a, &b)
}

/// Resolves a declared save path against the home directory.
///
/// Each segment that is a home token is replaced by `home`; the other segments
/// stay as they are, and the segments are joined again. The result must be
/// absolute, and must be neither the home directory nor one of its ancestors.
/// A path that names the home directory cannot be resolved while none is known.
pub fn rewrite_path(path: &str, home: Option<&str>) -> (r: Result<String, PathError>)
    ensures
        match r {
            Ok(p) => resolution(path@, option_text(home)) == Ok::<Seq<char>, PathErrorKind>(p@),
            Err(e) => resolution(path@, option_text(home)) == Err::<Seq<char>, PathErrorKind>(
                e.kind,
            ) && e.path@ == path@ && e.expanded@ == failed_expansion(
                e.kind,
                path@,
                option_text(home),
            ),
        },
{
    let declared = to_chars(path);
    let parts = split_segments(&declared);
    let home_chars: Option<Vec<char>> = match home {
        Some(h) => Some(to_chars(h)),
        None => None,
    };
    let ghost segs = segments(path@);
    let ghost h: Seq<char> = match home {
        Some(h) => h@,
        None => Seq::<char>::empty(),
    };
    let mut out: Vec<char> = Vec::new();
    let mut i: usize = 0;
    assert(substituted(segs, h).subrange(0, 0) =~= Seq::<Seq<char>>::empty());
    while i < parts.len()
        invariant
            i <= parts.len(),
            texts(parts@) == segs,
            segs == segments(path@),
            home_chars.is_some() == home.is_some(),
            home matches Some(x) ==> home_chars.unwrap()@ == x@ && h == x@,
            declared@ == path@,
            out@ == joined(substituted(segs, h).subrange(0, i as int)),
            home.is_none() ==> forall|j: int| 0 <= j < i ==> !is_home_token(#[trigger] segs[j]),
        decreases parts.len() - i,
    {
        let ghost done = substituted(segs, h).subrange(0, i as int);
        let ghost next = substituted(segs, h).subrange(0, i + 1);
        assert(next.drop_last() =~= done);
        assert(segs[i as int] == parts@[i as int]@);
        if i > 0 {
            out.push('/');
        }
        if is_home_segment(&parts[i]) {
            match &home_chars {
                Some(hc) => {
                    extend_chars(&mut out, hc);
                },
                None => {
                    assert(is_home_token(segs[i as int]));
                    return Err(
                        PathError {
                            kind: PathErrorKind::HomeUnavailable,
                            path: from_chars(&declared),
                            expanded: String::new(),
                        },
                    );
                },
            }
        } else {
            extend_chars(&mut out, &parts[i]);
        }
        assert(out@ =~= joined(next)) by {
            if i > 0 {
                assert(joined(next) == joined(done) + seq!['/'] + next.last());
            }
        }
        i += 1;
    }
    assert(substituted(segs, h).subrange(0, parts.len() as int) =~= substituted(segs, h));
    proof {
        if home.is_none() {
            assert(substituted(segs, h) =~= segs);
            lemma_joined_segments(path@);
            assert(!mentions_home(path@));
        }
    }
    if out.len() == 0 || out[0] != '/' {
        return Err(
            PathError {
                kind: PathErrorKind::InvalidPath,
                path: from_chars(&declared),
                expanded: from_chars(&out),
            },
        );
    }
    match &home_chars {
        Some(hc) => {
            if path_covers(&out, hc) {
                return Err(
                    PathError {
                        kind: PathErrorKind::PathTooBroad,
                        path: from_chars(&declared),
                        expanded: from_chars(&out),
                    },
                );
            }
        },
        None => {},
    }
    Ok(from_chars(&out))
}

/// The text of an optional string.
pub open spec fn option_text(s: Option<&str>) -> Option<Seq<char>> {
    match s {
        Some(x) => Some(x@),
        None => None,
    }
}

/// Splitting never gives an empty list.
pub proof fn lemma_segments_nonempty(s: Seq<char>)
    ensures
        segments(s).len() >= 1,
    decreases s.len(),
{
    if s.len() > 0 {
        lemma_segments_nonempty(s.drop_last());
    }
}

/// Joining the segments of a text gives the text back.
pub proof fn lemma_joined_segments(s: Seq<char>)
    ensures
        joined(segments(s)) == s,
    decreases s.len(),
{
    if s.len() == 0 {
        assert(joined(segments(s)) =~= s);
    } else {
        let t = s.drop_last();
        let c = s.last();
        lemma_joined_segments(t);
        lemma_segments_nonempty(t);
        let head = segments(t);
        if c == '/' {
            let all = head.push(Seq::<char>::empty());
            assert(all.drop_last() =~= head);
            assert(joined(all) =~= t + seq!['/']);
            assert(t + seq!['/'] =~= s);
        } else {
            let rest = head.drop_last();
            let all = rest.push(head.last().push(c));
            assert(all.drop_last() =~= rest);
            if rest.len() == 0 {
                assert(joined(head) == head[0]);
                assert(joined(all) =~= t.push(c));
            } else {
                assert(joined(head) == joined(rest) + seq!['/'] + head.last());
                assert(joined(all) =~= (joined(rest) + seq!['/'] + head.last()).push(c));
            }
            assert(t.push(c) =~= s);
        }
    }
}

/// A text without a separator is its own only segment.
pub proof fn lemma_segments_plain(s: Seq<char>)
    requires
        forall|i: int| 0 <= i < s.len() ==> s[i] != '/',
    ensures
        segments(s) == seq![s],
    decreases s.len(),
{
    if s.len() == 0 {
        assert(s =~= Seq::<char>::empty());
    } else {
        let t = s.drop_last();
        lemma_segments_plain(t);
        assert(segments(t).drop_last().push(segments(t).last().push(s.last())) =~= seq![
            t.push(s.last()),
        ]);
        assert(t.push(s.last()) =~= s);
    }
}

/// The segments of two texts with a separator between them are the segments of
/// the first followed by those of the second.
pub proof fn lemma_segments_concat(a: Seq<char>, b: Seq<char>)
    ensures
        segments(a + seq!['/'] + b) == segments(a) + segments(b),
    decreases b.len(),
{
    let whole = a + seq!['/'] + b;
    lemma_segments_nonempty(a);
    if b.len() == 0 {
        assert(whole.drop_last() =~= a);
        assert(segments(whole) =~= segments(a) + segments(b));
    } else {
        let t = b.drop_last();
        let c = b.last();
        lemma_segments_concat(a, t);
        lemma_segments_nonempty(t);
        assert(whole.drop_last() =~= a + seq!['/'] + t);
        assert(whole.last() == c);
        let head = segments(a) + segments(t);
        if c == '/' {
            assert(head.push(Seq::<char>::empty()) =~= segments(a) + segments(t).push(
                Seq::<char>::empty(),
            ));
        } else {
            assert(head.last() == segments(t).last());
            assert(head.drop_last() =~= segments(a) + segments(t).drop_last());
            assert(head.drop_last().push(head.last().push(c)) =~= segments(a) + segments(
                t,
            ).drop_last().push(segments(t).last().push(c)));
        }
    }
}

/// The named parts of two lists in a row are the named parts of the first
/// followed by those of the second.
pub proof fn lemma_named_concat(x: Seq<Seq<char>>, y: Seq<Seq<char>>)
    ensures
        named(x + y) == named(x) + named(y),
    decreases y.len(),
{
    if y.len() == 0 {
        assert(x + y =~= x);
        assert(named(x) + named(y) =~= named(x));
    } else {
        lemma_named_concat(x, y.drop_last());
        assert((x + y).drop_last() =~= x + y.drop_last());
        assert((x + y).last() == y.last());
        if is_named(y.last()) {
            assert(named(x + y.drop_last()).push(y.last()) =~= named(x) + named(y.drop_last()).push(
                y.last(),
            ));
        }
    }
}

/// No segment holds a separator.
pub proof fn lemma_segments_hold_no_separator(s: Seq<char>)
    ensures
        forall|i: int, j: int|
            0 <= i < segments(s).len() && 0 <= j < segments(s)[i].len() ==> #[trigger] segments(
                s,
            )[i][j] != '/',
    decreases s.len(),
{
    if s.len() > 0 {
        let head = segments(s.drop_last());
        lemma_segments_hold_no_separator(s.drop_last());
        lemma_segments_nonempty(s.drop_last());
        let all = segments(s);
        assert forall|i: int, j: int| 0 <= i < all.len() && 0 <= j < all[i].len() implies #[trigger] all[i][j]
            != '/' by {
            if s.last() == '/' {
                if i < head.len() {
                    assert(all[i] == head[i]);
                }
            } else {
                if i < head.len() - 1 {
                    assert(all[i] == head[i]);
                } else {
                    assert(all[i] == head.last().push(s.last()));
                    if j < head.last().len() {
                        assert(all[i][j] == head[head.len() - 1][j]);
                    }
                }
            }
        }
    }
}

/// The named parts are parts, each of them named, and a list of named parts is
/// its own list of named parts.
pub proof fn lemma_named_parts(parts: Seq<Seq<char>>)
    ensures
        forall|i: int|
            0 <= i < named(parts).len() ==> is_named(#[trigger] named(parts)[i]) && parts.contains(
                named(parts)[i],
            ),
        (forall|i: int| 0 <= i < parts.len() ==> is_named(#[trigger] parts[i])) ==> named(parts)
            == parts,
    decreases parts.len(),
{
    if parts.len() > 0 {
        let before = parts.drop_last();
        lemma_named_parts(before);
        assert forall|i: int| 0 <= i < named(parts).len() implies is_named(
            #[trigger] named(parts)[i],
        ) && parts.contains(named(parts)[i]) by {
            if i < named(before).len() {
                let k = choose|k: int| 0 <= k < before.len() && before[k] == named(before)[i];
                assert(parts[k] == named(parts)[i]);
            } else {
                assert(parts[parts.len() - 1] == named(parts)[i]);
            }
        }
        if (forall|i: int| 0 <= i < parts.len() ==> is_named(#[trigger] parts[i])) {
            assert forall|i: int| 0 <= i < before.len() implies is_named(#[trigger] before[i]) by {
                assert(before[i] == parts[i]);
            }
            assert(is_named(parts[parts.len() - 1]));
            assert(before.push(parts.last()) =~= parts);
        }
    } else {
        assert(named(parts) =~= parts);
    }
}

/// Splitting what was joined gives the parts back, where there is at least one
/// part and no part holds a separator.
pub proof fn lemma_segments_joined(parts: Seq<Seq<char>>)
    requires
        parts.len() >= 1,
        forall|i: int, j: int|
            0 <= i < parts.len() && 0 <= j < parts[i].len() ==> #[trigger] parts[i][j] != '/',
    ensures
        segments(joined(parts)) == parts,
    decreases parts.len(),
{
    let last = parts.last();
    assert forall|j: int| 0 <= j < last.len() implies last[j] != '/' by {
        assert(parts[parts.len() - 1][j] != '/');
    }
    lemma_segments_plain(last);
    if parts.len() == 1 {
        assert(seq![last] =~= parts);
    } else {
        let before = parts.drop_last();
        assert forall|i: int, j: int|
            0 <= i < before.len() && 0 <= j < before[i].len() implies #[trigger] before[i][j]
            != '/' by {
            assert(before[i] == parts[i]);
        }
        lemma_segments_joined(before);
        lemma_segments_concat(joined(before), last);
        assert(before + seq![last] =~= parts);
    }
}

/// What is left when the parent segments are carried out holds no parent
/// segment and only parts of the list, and a list without parent segments is
/// left as it is.
pub proof fn lemma_folded_parts(parts: Seq<Seq<char>>)
    ensures
        forall|i: int|
            0 <= i < folded(parts).len() ==> !is_parent(#[trigger] folded(parts)[i])
                && parts.contains(folded(parts)[i]),
        (forall|i: int| 0 <= i < parts.len() ==> !is_parent(#[trigger] parts[i])) ==> folded(parts)
            == parts,
    decreases parts.len(),
{
    if parts.len() > 0 {
        let before = parts.drop_last();
        lemma_folded_parts(before);
        assert forall|i: int| 0 <= i < folded(parts).len() implies !is_parent(
            #[trigger] folded(parts)[i],
        ) && parts.contains(folded(parts)[i]) by {
            if i < folded(before).len() {
                assert(folded(parts)[i] == folded(before)[i]);
                let k = choose|k: int| 0 <= k < before.len() && before[k] == folded(before)[i];
                assert(parts[k] == folded(parts)[i]);
            } else {
                assert(parts[parts.len() - 1] == folded(parts)[i]);
            }
        }
        if (forall|i: int| 0 <= i < parts.len() ==> !is_parent(#[trigger] parts[i])) {
            assert forall|i: int| 0 <= i < before.len() implies !is_parent(#[trigger] before[i]) by {
                assert(before[i] == parts[i]);
            }
            assert(!is_parent(parts[parts.len() - 1]));
            assert(before.push(parts.last()) =~= parts);
        }
    } else {
        assert(folded(parts) =~= parts);
    }
}

/// The normal form of an absolute path is absolute and has the components of
/// the path.
pub proof fn lemma_normalized_components(path: Seq<char>)
    requires
        is_absolute(path),
    ensures
        is_absolute(normalized(path)),
        components(normalized(path)) == components(path),
{
    let parts = components(path);
    let body = joined(parts);
    let normal = seq!['/'] + body;
    assert(normal[0] == '/');
    lemma_segments_hold_no_separator(path);
    lemma_named_parts(segments(path));
    lemma_folded_parts(named(segments(path)));
    assert forall|i: int| 0 <= i < parts.len() implies is_named(#[trigger] parts[i])
        && segments(path).contains(parts[i]) by {
        let kept = named(segments(path));
        let k = choose|k: int| 0 <= k < kept.len() && kept[k] == parts[i];
        assert(is_named(kept[k]) && segments(path).contains(kept[k]));
    }
    assert(Seq::<char>::empty() + seq!['/'] + body =~= normal);
    lemma_segments_concat(Seq::<char>::empty(), body);
    let root = segments(Seq::<char>::empty());
    assert(root =~= seq![Seq::<char>::empty()]);
    assert(named(root) =~= Seq::<Seq<char>>::empty()) by {
        assert(root.drop_last() =~= Seq::<Seq<char>>::empty());
        assert(named(root.drop_last()) =~= Seq::<Seq<char>>::empty());
        assert(!is_named(root.last()));
    }
    lemma_named_concat(root, segments(body));
    if parts.len() == 0 {
        assert(body =~= Seq::<char>::empty());
        assert(named(segments(body)) =~= Seq::<Seq<char>>::empty());
        assert(named(segments(normal)) =~= Seq::<Seq<char>>::empty());
        assert(components(normal) =~= parts);
    } else {
        assert forall|i: int, j: int|
            0 <= i < parts.len() && 0 <= j < parts[i].len() implies #[trigger] parts[i][j]
            != '/' by {
            let k = choose|k: int| 0 <= k < segments(path).len() && segments(path)[k] == parts[i];
            assert(segments(path)[k][j] != '/');
        }
        lemma_segments_joined(parts);
        lemma_named_parts(parts);
        lemma_folded_parts(parts);
        assert(named(segments(normal)) =~= parts);
        assert(components(normal) =~= parts);
    }
}

/// The normal form of a normal form is the normal form itself.
pub proof fn lemma_normalized_idempotent(path: Seq<char>)
    ensures
        normalized(normalized(path)) == normalized(path),
{
    if is_absolute(path) {
        lemma_normalized_components(path);
    }
}

/// Two absolute paths have the same normal form exactly when they have the same
/// components, that is when they denote the same location.
pub proof fn lemma_normalized_same_location(a: Seq<char>, b: Seq<char>)
    requires
        is_absolute(a),
        is_absolute(b),
    ensures
        (normalized(a) == normalized(b)) <==> (components(a) == components(b)),
{
    lemma_normalized_components(a);
    lemma_normalized_components(b);
}

/// A declared path that is nothing but a home token resolves to the home
/// directory itself, which is too broad: whichever way the token is spelled,
/// the resolution fails.
pub proof fn lemma_home_alone_is_too_broad(path: Seq<char>, home: Seq<char>)
    requires
        is_home_token(path),
        is_absolute(home),
    ensures
        resolution(path, Some(home)) == Err::<Seq<char>, PathErrorKind>(PathErrorKind::PathTooBroad),
{
    lemma_segments_plain(path);
    assert(substituted(segments(path), home) =~= seq![home]);
    assert(expanded(path, home) == home);
    assert(components(home).is_prefix_of(components(home)));
}

/// The parent of the home directory is too broad: a home token followed by a
/// parent segment does not resolve.
pub proof fn lemma_parent_of_home_is_too_broad(token: Seq<char>, home: Seq<char>)
    requires
        is_home_token(token),
        is_absolute(home),
    ensures
        resolution(token + seq!['/', '.', '.'], Some(home)) == Err::<Seq<char>, PathErrorKind>(
            PathErrorKind::PathTooBroad,
        ),
{
    let up = seq!['.', '.'];
    let path = token + seq!['/'] + up;
    assert(path =~= token + seq!['/', '.', '.']);
    let result = home + seq!['/'] + up;
    lemma_segments_plain(token);
    lemma_segments_plain(up);
    lemma_segments_concat(token, up);
    assert(segments(path) =~= seq![token, up]);
    let parts = substituted(segments(path), home);
    assert(parts =~= seq![home, up]);
    assert(parts.drop_last() =~= seq![home]);
    assert(joined(parts) == joined(parts.drop_last()) + seq!['/'] + parts.last());
    assert(expanded(path, home) =~= result);
    assert(result[0] == home[0]);
    lemma_segments_concat(home, up);
    lemma_named_concat(segments(home), segments(up));
    assert(named(seq![up]) =~= seq![up]) by {
        let one = seq![up];
        assert(one.drop_last() =~= Seq::<Seq<char>>::empty());
        assert(named(one.drop_last()) =~= Seq::<Seq<char>>::empty());
        assert(one.last() == up);
        assert(up != seq!['.']) by {
            assert(up.len() == 2);
        }
    }
    let kept = named(segments(home));
    assert(named(segments(result)) =~= kept.push(up));
    assert(kept.push(up).drop_last() =~= kept);
    let above = components(result);
    assert(above == (if folded(kept).len() > 0 {
        folded(kept).drop_last()
    } else {
        folded(kept)
    }));
    assert(above =~= components(home).subrange(0, above.len() as int));
}

/// A named entry directly under a home token resolves to that entry under the
/// home directory: the resolution succeeds, and the result lies under the home
/// directory and is not the home directory.
pub proof fn lemma_under_home_resolves(token: Seq<char>, name: Seq<char>, home: Seq<char>)
    requires
        is_home_token(token),
        is_absolute(home),
        is_named(name),
        !is_parent(name),
        !is_home_token(name),
        forall|i: int| 0 <= i < name.len() ==> name[i] != '/',
    ensures
        resolution(token + seq!['/'] + name, Some(home)) == Ok::<Seq<char>, PathErrorKind>(
            home + seq!['/'] + name,
        ),
        covers(home, home + seq!['/'] + name),
        !covers(home + seq!['/'] + name, home),
        components(home + seq!['/'] + name) == components(home).push(name),
{
    let path = token + seq!['/'] + name;
    let result = home + seq!['/'] + name;
    lemma_segments_plain(token);
    lemma_segments_plain(name);
    lemma_segments_concat(token, name);
    assert(segments(path) =~= seq![token, name]);
    let parts = substituted(segments(path), home);
    assert(parts =~= seq![home, name]);
    assert(parts.drop_last() =~= seq![home]);
    assert(joined(parts) == joined(parts.drop_last()) + seq!['/'] + parts.last());
    assert(expanded(path, home) =~= result);
    assert(result[0] == home[0]);
    lemma_segments_concat(home, name);
    lemma_named_concat(segments(home), segments(name));
    assert(named(seq![name]) =~= seq![name]) by {
        let one = seq![name];
        assert(one.drop_last() =~= Seq::<Seq<char>>::empty());
        assert(named(one.drop_last()) =~= Seq::<Seq<char>>::empty());
        assert(one.last() == name);
    }
    let kept = named(segments(home));
    assert(named(segments(result)) =~= kept.push(name));
    assert(kept.push(name).drop_last() =~= kept);
    assert(components(result) =~= components(home).push(name));
    assert(components(result).subrange(0, components(home).len() as int) =~= components(home));
}

} // verus!
