//! Paths as text: what they are made of, joining them, and taking the name at
//! their end apart.

use crate::text::{chars_of, fold, folded, part_of, same};
use vstd::prelude::*;

verus! {

/// The system that the recorder runs on.
#[derive(Debug, Clone, Copy, PartialEq, Eq, Structural)]
pub enum Platform {
    Linux,
    Windows,
}

pub open spec fn is_separator(platform: Platform, c: char) -> bool {
    c == '/' || (platform == Platform::Windows && c == '\\')
}

/// A separator of components. After a verbatim prefix of Windows, `\\?\`, a
/// slash is a character like any other.
pub open spec fn separates(platform: Platform, verbatim: bool, c: char) -> bool {
    if verbatim {
        c == '\\'
    } else {
        is_separator(platform, c)
    }
}

/// Where the run of characters that are no separators ends that begins at
/// `from`.
pub open spec fn run_end(platform: Platform, verbatim: bool, path: Seq<char>, from: int) -> int
    decreases path.len() - from,
{
    if 0 <= from < path.len() && !separates(platform, verbatim, path[from]) {
        run_end(platform, verbatim, path, from + 1)
    } else {
        from
    }
}

/// Two runs from `from` on, such as a server and its share: where the second
/// ends, or the first where there is no second.
pub open spec fn two_runs_end(platform: Platform, verbatim: bool, path: Seq<char>, from: int) -> int {
    let first = run_end(platform, verbatim, path, from);
    let second = run_end(platform, verbatim, path, first + 1);
    if first < path.len() && second > first + 1 {
        second
    } else {
        first
    }
}

// ----------------------------------------------------------------- prefixes

/// What stands before the root. Only paths of Windows have anything there.
#[derive(Debug, Clone, Copy, PartialEq, Eq, Structural)]
pub enum Kind {
    /// Nothing.
    Absent,
    /// `C:`
    Drive,
    /// `\\server\share`
    Share,
    /// `\\.\COM1`
    Device,
    /// `\\?\C:`
    VerbatimDrive,
    /// `\\?\UNC\server\share`
    VerbatimShare,
    /// `\\?\` and anything else.
    Verbatim,
}

impl Kind {
    /// Windows takes such a path literally.
    pub open spec fn is_verbatim(self) -> bool {
        self == Kind::VerbatimDrive || self == Kind::VerbatimShare || self == Kind::Verbatim
    }

    /// Such a prefix has a root, though none is written behind it.
    pub open spec fn implies_root(self) -> bool {
        self == Kind::Share || self == Kind::Device
    }

    fn verbatim(self) -> (yes: bool)
        ensures
            yes == self.is_verbatim(),
    {
        match self {
            Kind::VerbatimDrive | Kind::VerbatimShare | Kind::Verbatim => true,
            _ => false,
        }
    }
}

/// A drive stands at `at`.
pub open spec fn drive_at(path: Seq<char>, at: int) -> bool {
    &&& path.len() >= at + 2
    &&& path[at + 1] == ':'
    &&& ('a' <= path[at] <= 'z' || 'A' <= path[at] <= 'Z')
}

/// The kind of what stands before the root. A share has a server and a name.
pub open spec fn prefix_kind(platform: Platform, path: Seq<char>) -> Kind {
    let sep = |i: int| is_separator(platform, path[i]);
    let server = run_end(platform, false, path, 2);
    if platform != Platform::Windows {
        Kind::Absent
    } else if path.len() >= 4 && path[0] == '\\' && path[1] == '\\' && path[2] == '?' && path[3]
        == '\\' {
        if path.len() >= 8 && path[4] == 'U' && path[5] == 'N' && path[6] == 'C' && sep(7) {
            Kind::VerbatimShare
        } else if drive_at(path, 4) && (path.len() == 6 || sep(6)) {
            Kind::VerbatimDrive
        } else {
            Kind::Verbatim
        }
    } else if path.len() >= 4 && sep(0) && sep(1) && path[2] == '.' && sep(3) {
        Kind::Device
    } else if path.len() >= 2 && sep(0) && sep(1) {
        if server > 2 && two_runs_end(platform, false, path, 2) > server {
            Kind::Share
        } else {
            Kind::Absent
        }
    } else if drive_at(path, 0) {
        Kind::Drive
    } else {
        Kind::Absent
    }
}

/// How long the prefix is.
pub open spec fn prefix_len(platform: Platform, path: Seq<char>) -> int {
    match prefix_kind(platform, path) {
        Kind::Absent => 0,
        Kind::Drive => 2,
        Kind::Share => two_runs_end(platform, false, path, 2),
        Kind::Device => run_end(platform, false, path, 4),
        Kind::VerbatimDrive => 6,
        Kind::VerbatimShare => two_runs_end(platform, true, path, 8),
        Kind::Verbatim => run_end(platform, true, path, 4),
    }
}

/// A prefix taken apart. The case of a drive does not matter.
#[verifier::ext_equal]
pub struct Prefix {
    pub kind: Kind,
    /// The drive, the device or the server.
    pub name: Seq<char>,
    pub share: Seq<char>,
}

pub open spec fn prefix_of(platform: Platform, path: Seq<char>) -> Prefix {
    let kind = prefix_kind(platform, path);
    let len = prefix_len(platform, path);
    let verbatim = kind.is_verbatim();
    let from: int = if verbatim {
        8
    } else {
        2
    };
    let server = run_end(platform, verbatim, path, from);
    match kind {
        Kind::Absent => Prefix { kind, name: Seq::empty(), share: Seq::empty() },
        Kind::Drive => Prefix { kind, name: folded(path.subrange(0, 1)), share: Seq::empty() },
        Kind::VerbatimDrive => Prefix {
            kind,
            name: folded(path.subrange(4, 5)),
            share: Seq::empty(),
        },
        Kind::Device | Kind::Verbatim => Prefix {
            kind,
            name: path.subrange(4, len),
            share: Seq::empty(),
        },
        Kind::Share | Kind::VerbatimShare => Prefix {
            kind,
            name: path.subrange(from, server),
            share: if len > server {
                path.subrange(server + 1, len)
            } else {
                Seq::empty()
            },
        },
    }
}

// --------------------------------------------------------------- components

/// A component behind the prefix.
#[derive(Debug)]
pub enum Part<T> {
    Root,
    /// A step that stays in place.
    Here,
    /// A step up.
    Up,
    Name(T),
}

/// What stands between separators, without what is empty.
pub open spec fn runs(platform: Platform, verbatim: bool, text: Seq<char>) -> Seq<Seq<char>>
    decreases text.len(),
{
    let end = run_end(platform, verbatim, text, 0);
    let first = if end > 0 {
        seq![text.take(end)]
    } else {
        Seq::empty()
    };
    if text.len() == 0 {
        Seq::empty()
    } else if 0 <= end < text.len() {
        first + runs(platform, verbatim, text.skip(end + 1))
    } else {
        first
    }
}

/// The component that a run stands for. A dot is none where it is not kept.
pub open spec fn part_for(run: Seq<char>, keep_dot: bool) -> Option<Part<Seq<char>>> {
    if run == seq!['.'] {
        if keep_dot {
            Some(Part::Here)
        } else {
            None
        }
    } else if run == seq!['.', '.'] {
        Some(Part::Up)
    } else {
        Some(Part::Name(run))
    }
}

/// The components that runs stand for. Dots are kept in a verbatim path, and in
/// front of a relative one.
pub open spec fn parts_of(runs: Seq<Seq<char>>, verbatim: bool, relative: bool) -> Seq<
    Part<Seq<char>>,
>
    decreases runs.len(),
{
    if runs.len() == 0 {
        Seq::empty()
    } else {
        let before = parts_of(runs.drop_last(), verbatim, relative);
        match part_for(runs.last(), verbatim || (relative && runs.len() == 1)) {
            Some(part) => before.push(part),
            None => before,
        }
    }
}

/// A path as a sequence of steps. Two paths with the same steps are the same
/// path, however they are written.
#[verifier::ext_equal]
pub struct Route {
    pub prefix: Prefix,
    pub parts: Seq<Part<Seq<char>>>,
}

/// A root is written behind the prefix.
pub open spec fn has_root(platform: Platform, path: Seq<char>) -> bool {
    let len = prefix_len(platform, path);
    len < path.len() && is_separator(platform, path[len])
}

pub open spec fn route(platform: Platform, path: Seq<char>) -> Route {
    let kind = prefix_kind(platform, path);
    let len = prefix_len(platform, path);
    let rooted = has_root(platform, path);
    let body = path.skip(
        if rooted {
            len + 1
        } else {
            len
        },
    );
    let verbatim = kind.is_verbatim();
    let steps = parts_of(runs(platform, verbatim, body), verbatim, kind == Kind::Absent && !rooted);
    Route {
        prefix: prefix_of(platform, path),
        parts: if rooted || kind.implies_root() {
            seq![Part::Root] + steps
        } else {
            steps
        },
    }
}

/// Two paths are the same path.
pub open spec fn same_path(platform: Platform, a: Seq<char>, b: Seq<char>) -> bool {
    route(platform, a) == route(platform, b)
}

/// The name of the file that a path leads to.
pub open spec fn spec_file_name(platform: Platform, path: Seq<char>) -> Option<Seq<char>> {
    let parts = route(platform, path).parts;
    if parts.len() == 0 {
        None
    } else {
        match parts.last() {
            Part::Name(name) => Some(name),
            _ => None,
        }
    }
}

// ------------------------------------------------------------------ joining

/// Where one more step leads.
pub open spec fn stepped(parts: Seq<Part<Seq<char>>>, step: Part<Seq<char>>) -> Seq<
    Part<Seq<char>>,
> {
    match step {
        Part::Root => seq![Part::Root],
        Part::Here => parts,
        Part::Up => if parts.len() > 0 && parts.last() is Name {
            parts.drop_last()
        } else {
            parts
        },
        Part::Name(_) => parts.push(step),
    }
}

/// Where more steps lead.
pub open spec fn walked(parts: Seq<Part<Seq<char>>>, steps: Seq<Part<Seq<char>>>) -> Seq<
    Part<Seq<char>>,
>
    decreases steps.len(),
{
    if steps.len() == 0 {
        parts
    } else {
        stepped(walked(parts, steps.drop_last()), steps.last())
    }
}

pub open spec fn part_text(part: Part<Seq<char>>) -> Seq<char> {
    match part {
        Part::Root => "\\"@,
        Part::Here => "."@,
        Part::Up => ".."@,
        Part::Name(name) => name,
    }
}

/// Steps behind a verbatim prefix, as Windows writes them.
pub open spec fn written(prefix: Seq<char>, parts: Seq<Part<Seq<char>>>) -> Seq<char>
    decreases parts.len(),
{
    if parts.len() == 0 {
        prefix
    } else {
        let before = written(prefix, parts.drop_last());
        if parts.last() is Root || (parts.len() > 1 && parts[parts.len() - 2] is Root) {
            before + part_text(parts.last())
        } else {
            before + "\\"@ + part_text(parts.last())
        }
    }
}

/// A path below a directory. One with a root or a prefix of its own does not
/// stay below it. A verbatim path has no steps to be resolved later, so they
/// are resolved here.
pub open spec fn joined(platform: Platform, dir: Seq<char>, leaf: Seq<char>) -> Seq<char> {
    let kind = prefix_kind(platform, dir);
    let prefix = dir.take(prefix_len(platform, dir));
    if prefix_kind(platform, leaf) != Kind::Absent {
        leaf
    } else if kind.is_verbatim() && leaf.len() > 0 {
        written(prefix, walked(route(platform, dir).parts, route(platform, leaf).parts))
    } else if has_root(platform, leaf) {
        prefix + leaf
    } else if dir.len() == 0 || is_separator(platform, dir.last()) || (kind == Kind::Drive
        && dir.len() == 2) {
        dir + leaf
    } else if platform == Platform::Windows {
        dir + "\\"@ + leaf
    } else {
        dir + "/"@ + leaf
    }
}

// -------------------------------------------------------------------- names

/// Where the last dot of a name stands; a name without any has -1.
pub open spec fn last_dot(name: Seq<char>) -> int
    decreases name.len(),
{
    if name.len() == 0 {
        -1
    } else if name.last() == '.' {
        name.len() - 1
    } else {
        last_dot(name.drop_last())
    }
}

/// A name without its extension. A dot in front makes no extension.
pub open spec fn spec_stem(name: Seq<char>) -> Seq<char> {
    if last_dot(name) > 0 {
        name.take(last_dot(name))
    } else {
        name
    }
}

pub open spec fn has_extension(name: Seq<char>, extension: Seq<char>) -> bool {
    last_dot(name) > 0 && name.skip(last_dot(name) + 1) == extension
}

// ---------------------------------------------------------- taking apart

fn separator(platform: Platform, verbatim: bool, c: char) -> (yes: bool)
    ensures
        yes <==> separates(platform, verbatim, c),
{
    if verbatim {
        c == '\\'
    } else {
        c == '/' || (platform == Platform::Windows && c == '\\')
    }
}

fn run_end_of(platform: Platform, verbatim: bool, chars: &Vec<char>, from: usize) -> (end: usize)
    requires
        from <= chars@.len(),
    ensures
        end == run_end(platform, verbatim, chars@, from as int),
        from <= end <= chars@.len(),
{
    let mut i: usize = from;
    while i < chars.len() && !separator(platform, verbatim, chars[i])
        invariant
            from <= i <= chars@.len(),
            run_end(platform, verbatim, chars@, from as int) == run_end(
                platform,
                verbatim,
                chars@,
                i as int,
            ),
        decreases chars@.len() - i,
    {
        i = i + 1;
    }
    i
}

fn two_runs_end_of(platform: Platform, verbatim: bool, chars: &Vec<char>, from: usize) -> (end:
    usize)
    requires
        from <= chars@.len(),
    ensures
        end == two_runs_end(platform, verbatim, chars@, from as int),
        from <= end <= chars@.len(),
{
    let first = run_end_of(platform, verbatim, chars, from);
    if first < chars.len() {
        let second = run_end_of(platform, verbatim, chars, first + 1);
        if second > first + 1 {
            return second;
        }
    }
    first
}

fn is_drive_at(chars: &Vec<char>, at: usize) -> (yes: bool)
    requires
        at <= 4,
    ensures
        yes <==> drive_at(chars@, at as int),
{
    if chars.len() < at + 2 || chars[at + 1] != ':' {
        return false;
    }
    let c = chars[at];
    ('a' <= c && c <= 'z') || ('A' <= c && c <= 'Z')
}

fn kind_of(platform: Platform, chars: &Vec<char>) -> (kind: Kind)
    ensures
        kind == prefix_kind(platform, chars@),
{
    match platform {
        Platform::Linux => {
            return Kind::Absent;
        },
        Platform::Windows => {},
    }
    let n = chars.len();
    if n >= 4 && chars[0] == '\\' && chars[1] == '\\' && chars[2] == '?' && chars[3] == '\\' {
        if n >= 8 && chars[4] == 'U' && chars[5] == 'N' && chars[6] == 'C' && separator(
            platform,
            false,
            chars[7],
        ) {
            return Kind::VerbatimShare;
        }
        if is_drive_at(chars, 4) && (n == 6 || separator(platform, false, chars[6])) {
            return Kind::VerbatimDrive;
        }
        return Kind::Verbatim;
    }
    if n >= 2 && separator(platform, false, chars[0]) && separator(platform, false, chars[1]) {
        if n >= 4 && chars[2] == '.' && separator(platform, false, chars[3]) {
            return Kind::Device;
        }
        let server = run_end_of(platform, false, chars, 2);
        if server > 2 && two_runs_end_of(platform, false, chars, 2) > server {
            return Kind::Share;
        }
        return Kind::Absent;
    }
    if is_drive_at(chars, 0) {
        Kind::Drive
    } else {
        Kind::Absent
    }
}

fn prefix_len_of(platform: Platform, chars: &Vec<char>) -> (len: usize)
    ensures
        len == prefix_len(platform, chars@),
        len <= chars@.len(),
        prefix_kind(platform, chars@) is Device || prefix_kind(platform, chars@) is Verbatim ==> len
            >= 4,
{
    match kind_of(platform, chars) {
        Kind::Absent => 0,
        Kind::Drive => 2,
        Kind::Share => two_runs_end_of(platform, false, chars, 2),
        Kind::Device => run_end_of(platform, false, chars, 4),
        Kind::VerbatimDrive => 6,
        Kind::VerbatimShare => two_runs_end_of(platform, true, chars, 8),
        Kind::Verbatim => run_end_of(platform, true, chars, 4),
    }
}

struct PrefixText {
    kind: Kind,
    name: String,
    share: String,
}

impl PrefixText {
    spec fn prefix(self) -> Prefix {
        Prefix { kind: self.kind, name: self.name@, share: self.share@ }
    }

    fn of(platform: Platform, chars: &Vec<char>) -> (prefix: Self)
        ensures
            prefix.prefix() == prefix_of(platform, chars@),
    {
        let kind = kind_of(platform, chars);
        let len = prefix_len_of(platform, chars);
        match kind {
            Kind::Absent => PrefixText { kind, name: String::new(), share: String::new() },
            Kind::Drive => PrefixText {
                kind,
                name: fold(part_of(chars, 0, 1).as_str()),
                share: String::new(),
            },
            Kind::VerbatimDrive => PrefixText {
                kind,
                name: fold(part_of(chars, 4, 5).as_str()),
                share: String::new(),
            },
            Kind::Device | Kind::Verbatim => PrefixText {
                kind,
                name: part_of(chars, 4, len),
                share: String::new(),
            },
            Kind::Share | Kind::VerbatimShare => {
                let verbatim = kind.verbatim();
                let from: usize = if verbatim {
                    8
                } else {
                    2
                };
                let server = run_end_of(platform, verbatim, chars, from);
                let share = if len > server {
                    part_of(chars, server + 1, len)
                } else {
                    String::new()
                };
                PrefixText { kind, name: part_of(chars, from, server), share }
            },
        }
    }
}

spec fn part_shown(part: Part<String>) -> Part<Seq<char>> {
    match part {
        Part::Root => Part::Root,
        Part::Here => Part::Here,
        Part::Up => Part::Up,
        Part::Name(name) => Part::Name(name@),
    }
}

spec fn parts_shown(parts: Seq<Part<String>>) -> Seq<Part<Seq<char>>> {
    parts.map_values(|part: Part<String>| part_shown(part))
}

/// Where a run ends does not depend on what stands in front of it.
proof fn lemma_run_end_behind(
    platform: Platform,
    verbatim: bool,
    path: Seq<char>,
    at: int,
    from: int,
)
    requires
        0 <= at,
        0 <= from,
        at + from <= path.len(),
    ensures
        run_end(platform, verbatim, path.skip(at), from) + at == run_end(
            platform,
            verbatim,
            path,
            at + from,
        ),
    decreases path.len() - from,
{
    let rest = path.skip(at);
    if from < rest.len() {
        assert(rest[from] == path[at + from]);
        if !separates(platform, verbatim, path[at + from]) {
            lemma_run_end_behind(platform, verbatim, path, at, from + 1);
        }
    }
}

/// The components behind the prefix.
fn parts_in(platform: Platform, chars: &Vec<char>) -> (parts: Vec<Part<String>>)
    ensures
        parts_shown(parts@) == route(platform, chars@).parts,
{
    let kind = kind_of(platform, chars);
    let len = prefix_len_of(platform, chars);
    let verbatim = kind.verbatim();
    let rooted = len < chars.len() && separator(platform, false, chars[len]);
    let start: usize = if rooted {
        len + 1
    } else {
        len
    };
    let relative = kind == Kind::Absent && !rooted;
    let implied = match kind {
        Kind::Share | Kind::Device => true,
        _ => false,
    };
    let mut parts: Vec<Part<String>> = Vec::new();
    if rooted || implied {
        parts.push(Part::Root);
    }
    let ghost root = parts_shown(parts@);
    let ghost body = chars@.skip(start as int);
    let ghost all = runs(platform, verbatim, body);
    let ghost mut done: Seq<Seq<char>> = Seq::empty();
    let mut first = true;
    let mut i: usize = start;
    proof {
        assert(done + all =~= all);
        assert(root + parts_of(done, verbatim, relative) =~= root);
    }
    while i < chars.len()
        invariant
            start <= i <= chars@.len(),
            body == chars@.skip(start as int),
            all == runs(platform, verbatim, body),
            all == done + runs(platform, verbatim, chars@.skip(i as int)),
            parts_shown(parts@) == root + parts_of(done, verbatim, relative),
            first <==> done.len() == 0,
        decreases chars@.len() - i,
    {
        let ghost rest = chars@.skip(i as int);
        let end = run_end_of(platform, verbatim, chars, i);
        proof {
            lemma_run_end_behind(platform, verbatim, chars@, i as int, 0);
        }
        let ghost behind = if end < chars@.len() {
            runs(platform, verbatim, chars@.skip(end + 1))
        } else {
            Seq::empty()
        };
        assert(end < chars@.len() ==> rest.skip(end - i + 1) =~= chars@.skip(end + 1));
        if end > i {
            let ghost run = chars@.subrange(i as int, end as int);
            let ghost before = parts_shown(parts@);
            let ghost more = done.push(run);
            proof {
                assert(rest.take(end - i) =~= run);
                assert(done + (seq![run] + behind) =~= more + behind);
                assert(more.drop_last() =~= done);
            }
            let dot = end - i == 1 && chars[i] == '.';
            let up = end - i == 2 && chars[i] == '.' && chars[i + 1] == '.';
            proof {
                if dot {
                    assert(run =~= seq!['.']);
                } else if run == seq!['.'] {
                    assert(run[0] == '.' && run.len() == 1);
                }
                if up {
                    assert(run =~= seq!['.', '.']);
                } else if run == seq!['.', '.'] {
                    assert(run[0] == '.' && run[1] == '.' && run.len() == 2);
                }
            }
            if dot {
                if verbatim || (relative && first) {
                    parts.push(Part::Here);
                    assert(parts_shown(parts@) =~= before.push(Part::Here));
                }
            } else if up {
                parts.push(Part::Up);
                assert(parts_shown(parts@) =~= before.push(Part::Up));
            } else {
                parts.push(Part::Name(part_of(chars, i, end)));
                assert(parts_shown(parts@) =~= before.push(Part::Name(run)));
            }
            first = false;
            proof {
                done = more;
                assert(parts_shown(parts@) =~= root + parts_of(done, verbatim, relative));
            }
        } else {
            assert(Seq::<Seq<char>>::empty() + behind =~= behind);
        }
        if end < chars.len() {
            i = end + 1;
        } else {
            i = end;
            assert(chars@.skip(i as int) =~= Seq::empty());
            assert(done + Seq::<Seq<char>>::empty() =~= done);
        }
    }
    proof {
        assert(chars@.skip(i as int) =~= Seq::empty());
        assert(done + Seq::<Seq<char>>::empty() =~= done);
        assert(parts_shown(parts@) =~= route(platform, chars@).parts);
    }
    parts
}

fn same_part(a: &Part<String>, b: &Part<String>) -> (equal: bool)
    ensures
        equal <==> part_shown(*a) == part_shown(*b),
{
    match (a, b) {
        (Part::Root, Part::Root) => true,
        (Part::Here, Part::Here) => true,
        (Part::Up, Part::Up) => true,
        (Part::Name(x), Part::Name(y)) => same(x.as_str(), y.as_str()),
        _ => false,
    }
}

/// Whether two paths are the same path, however they are written.
pub fn is_same_path(platform: Platform, a: &str, b: &str) -> (equal: bool)
    ensures
        equal <==> same_path(platform, a@, b@),
{
    let x = chars_of(a);
    let y = chars_of(b);
    let p = PrefixText::of(platform, &x);
    let q = PrefixText::of(platform, &y);
    if p.kind != q.kind || !same(p.name.as_str(), q.name.as_str()) || !same(
        p.share.as_str(),
        q.share.as_str(),
    ) {
        return false;
    }
    let left = parts_in(platform, &x);
    let right = parts_in(platform, &y);
    let ghost l = parts_shown(left@);
    let ghost r = parts_shown(right@);
    if left.len() != right.len() {
        assert(l.len() != r.len());
        return false;
    }
    let mut i: usize = 0;
    while i < left.len()
        invariant
            i <= left@.len(),
            left@.len() == right@.len(),
            l == parts_shown(left@),
            r == parts_shown(right@),
            l == route(platform, a@).parts,
            r == route(platform, b@).parts,
            forall|k: int| 0 <= k < i ==> l[k] == r[k],
        decreases left@.len() - i,
    {
        if !same_part(&left[i], &right[i]) {
            assert(l[i as int] != r[i as int]);
            return false;
        }
        assert(l[i as int] == r[i as int]);
        i = i + 1;
    }
    assert(l =~= r);
    true
}

/// The name of the file that a path leads to. The root, a drive, a share and
/// a path that ends with a step up have none.
pub fn file_name(platform: Platform, path: &str) -> (name: Option<String>)
    ensures
        match name {
            Some(n) => spec_file_name(platform, path@) == Some(n@),
            None => spec_file_name(platform, path@) is None,
        },
{
    let chars = chars_of(path);
    let mut parts = parts_in(platform, &chars);
    let ghost all = parts_shown(parts@);
    match parts.pop() {
        Some(last) => {
            assert(all.last() == part_shown(last));
            match last {
                Part::Name(name) => Some(name),
                _ => None,
            }
        },
        None => None,
    }
}

fn walk(parts: &mut Vec<Part<String>>, steps: Vec<Part<String>>)
    ensures
        parts_shown(final(parts)@) == walked(parts_shown(old(parts)@), parts_shown(steps@)),
{
    let ghost from = parts_shown(parts@);
    let ghost all = parts_shown(steps@);
    let mut i: usize = 0;
    assert(all.take(0) =~= Seq::empty());
    while i < steps.len()
        invariant
            i <= steps@.len(),
            all == parts_shown(steps@),
            parts_shown(parts@) == walked(from, all.take(i as int)),
        decreases steps@.len() - i,
    {
        let ghost before = parts@;
        proof {
            assert(all.take(i + 1).drop_last() =~= all.take(i as int));
            assert(all.take(i + 1).last() == part_shown(steps@[i as int]));
        }
        match &steps[i] {
            Part::Root => {
                parts.clear();
                parts.push(Part::Root);
                assert(parts_shown(parts@) =~= seq![Part::Root]);
            },
            Part::Here => {},
            Part::Up => {
                let named = match parts.last() {
                    Some(Part::Name(_)) => true,
                    _ => false,
                };
                if named {
                    parts.pop();
                    assert(parts_shown(parts@) =~= parts_shown(before).drop_last());
                }
            },
            Part::Name(name) => {
                parts.push(Part::Name(name.clone()));
                assert(parts_shown(parts@) =~= parts_shown(before).push(Part::Name(name@)));
            },
        }
        i = i + 1;
    }
    assert(all.take(i as int) =~= all);
}

fn write_parts(prefix: String, parts: &Vec<Part<String>>) -> (path: String)
    ensures
        path@ == written(prefix@, parts_shown(parts@)),
{
    let ghost all = parts_shown(parts@);
    let ghost start = prefix@;
    let mut path = prefix;
    let mut behind_root = false;
    let mut i: usize = 0;
    assert(all.take(0) =~= Seq::empty());
    while i < parts.len()
        invariant
            i <= parts@.len(),
            all == parts_shown(parts@),
            path@ == written(start, all.take(i as int)),
            behind_root <==> i > 0 && all[i - 1] is Root,
        decreases parts@.len() - i,
    {
        let part = &parts[i];
        proof {
            assert(all.take(i + 1).drop_last() =~= all.take(i as int));
            assert(all.take(i + 1).last() == part_shown(*part));
            if i > 0 {
                assert(all.take(i + 1)[i - 1] == all[i - 1]);
            }
        }
        match part {
            Part::Root => {
                path.append("\\");
                behind_root = true;
            },
            _ => {
                if !behind_root {
                    path.append("\\");
                }
                match part {
                    Part::Here => path.append("."),
                    Part::Up => path.append(".."),
                    Part::Name(name) => path.append(name.as_str()),
                    Part::Root => {},
                }
                behind_root = false;
            },
        }
        i = i + 1;
    }
    assert(all.take(i as int) =~= all);
    path
}

/// A path below a directory.
pub fn join(platform: Platform, dir: &str, leaf: &str) -> (path: String)
    ensures
        path@ == joined(platform, dir@, leaf@),
{
    let base = chars_of(dir);
    let tail = chars_of(leaf);
    if kind_of(platform, &tail) != Kind::Absent {
        return leaf.to_owned();
    }
    let kind = kind_of(platform, &base);
    let len = prefix_len_of(platform, &base);
    if kind.verbatim() && tail.len() > 0 {
        let mut parts = parts_in(platform, &base);
        walk(&mut parts, parts_in(platform, &tail));
        let prefix = part_of(&base, 0, len);
        assert(prefix@ =~= dir@.take(len as int));
        return write_parts(prefix, &parts);
    }
    if tail.len() > 0 && separator(platform, false, tail[0]) {
        let mut path = part_of(&base, 0, len);
        assert(path@ =~= dir@.take(len as int));
        path.append(leaf);
        return path;
    }
    let n = base.len();
    let mut path = dir.to_owned();
    if n > 0 && !separator(platform, false, base[n - 1]) && !(kind == Kind::Drive && n == 2) {
        match platform {
            Platform::Windows => path.append("\\"),
            Platform::Linux => path.append("/"),
        }
    }
    path.append(leaf);
    path
}

/// The last dot of a name that stands behind another character.
fn dot_of(chars: &Vec<char>) -> (dot: Option<usize>)
    ensures
        match dot {
            Some(d) => d == last_dot(chars@) && 0 < d < chars@.len(),
            None => last_dot(chars@) <= 0,
        },
{
    let mut end: usize = chars.len();
    assert(chars@.take(end as int) =~= chars@);
    while end > 0
        invariant
            end <= chars@.len(),
            last_dot(chars@) == last_dot(chars@.take(end as int)),
        decreases end,
    {
        assert(chars@.take(end as int).drop_last() =~= chars@.take(end - 1));
        if chars[end - 1] == '.' {
            if end > 1 {
                return Some(end - 1);
            } else {
                return None;
            }
        }
        end = end - 1;
    }
    None
}

/// A name without its extension.
pub fn stem(name: &str) -> (result: String)
    ensures
        result@ == spec_stem(name@),
{
    let chars = chars_of(name);
    match dot_of(&chars) {
        Some(dot) => {
            assert(chars@.subrange(0, dot as int) =~= name@.take(dot as int));
            part_of(&chars, 0, dot)
        },
        None => name.to_owned(),
    }
}

/// Whether a name has a given extension.
pub fn is_of_kind(name: &str, extension: &str) -> (yes: bool)
    ensures
        yes <==> has_extension(name@, extension@),
{
    let chars = chars_of(name);
    match dot_of(&chars) {
        Some(dot) => {
            let end = chars.len();
            let found = part_of(&chars, dot + 1, end);
            assert(found@ =~= name@.skip(dot + 1));
            same(found.as_str(), extension)
        },
        None => false,
    }
}

// ----------------------------------------------------------------- the laws

proof fn lemma_run_end_bounds(platform: Platform, verbatim: bool, path: Seq<char>, from: int)
    requires
        0 <= from <= path.len(),
    ensures
        from <= run_end(platform, verbatim, path, from) <= path.len(),
        forall|i: int|
            from <= i < run_end(platform, verbatim, path, from) ==> !separates(
                platform,
                verbatim,
                #[trigger] path[i],
            ),
        run_end(platform, verbatim, path, from) < path.len() ==> separates(
            platform,
            verbatim,
            path[run_end(platform, verbatim, path, from)],
        ),
    decreases path.len() - from,
{
    if from < path.len() && !separates(platform, verbatim, path[from]) {
        lemma_run_end_bounds(platform, verbatim, path, from + 1);
    }
}

/// Where a run ends is told by what stands there.
proof fn lemma_run_end_is(
    platform: Platform,
    verbatim: bool,
    path: Seq<char>,
    from: int,
    end: int,
)
    requires
        0 <= from <= end <= path.len(),
        forall|i: int| from <= i < end ==> !separates(platform, verbatim, #[trigger] path[i]),
        end < path.len() ==> separates(platform, verbatim, path[end]),
    ensures
        run_end(platform, verbatim, path, from) == end,
    decreases end - from,
{
    if from < end {
        lemma_run_end_is(platform, verbatim, path, from + 1, end);
    }
}

/// A clean tail behind a separator is a run of its own, and the last.
proof fn lemma_runs_of_clean_tail(
    platform: Platform,
    verbatim: bool,
    head: Seq<char>,
    tail: Seq<char>,
)
    requires
        head.len() == 0 || separates(platform, verbatim, head.last()),
        tail.len() > 0,
        forall|i: int| 0 <= i < tail.len() ==> !separates(platform, verbatim, #[trigger] tail[i]),
    ensures
        runs(platform, verbatim, head + tail) == runs(platform, verbatim, head).push(tail),
    decreases head.len(),
{
    let text = head + tail;
    if head.len() == 0 {
        assert(text =~= tail);
        lemma_run_end_is(platform, verbatim, text, 0, text.len() as int);
        assert(text.take(text.len() as int) =~= tail);
        assert(runs(platform, verbatim, head).push(tail) =~= seq![tail]);
    } else {
        let end = run_end(platform, verbatim, head, 0);
        lemma_run_end_bounds(platform, verbatim, head, 0);
        assert(end < head.len()) by {
            if end == head.len() {
                assert(!separates(platform, verbatim, head[head.len() - 1]));
            }
        }
        assert forall|i: int| 0 <= i < end implies !separates(
            platform,
            verbatim,
            #[trigger] text[i],
        ) by {
            assert(text[i] == head[i]);
        }
        assert(text[end] == head[end]);
        lemma_run_end_is(platform, verbatim, text, 0, end);
        let rest = head.skip(end + 1);
        assert(text.skip(end + 1) =~= rest + tail);
        assert(text.take(end) =~= head.take(end));
        if rest.len() > 0 {
            assert(rest.last() == head.last());
        }
        lemma_runs_of_clean_tail(platform, verbatim, rest, tail);
        let first = if end > 0 {
            seq![head.take(end)]
        } else {
            Seq::empty()
        };
        let middle = runs(platform, verbatim, rest);
        assert(first + middle.push(tail) =~= (first + middle).push(tail));
    }
}

/// A name that a file below a directory can have.
pub open spec fn is_plain_name(platform: Platform, name: Seq<char>) -> bool {
    &&& name.len() > 0
    &&& name != seq!['.']
    &&& name != seq!['.', '.']
    &&& platform == Platform::Windows ==> !drive_at(name, 0)
    &&& forall|i: int| 0 <= i < name.len() ==> !is_separator(platform, #[trigger] name[i])
}

/// A directory in which every plain name is found again: on Windows one that
/// begins with a drive.
pub open spec fn is_plain_dir(platform: Platform, dir: Seq<char>) -> bool {
    platform == Platform::Windows ==> prefix_kind(platform, dir) == Kind::Drive || prefix_kind(
        platform,
        dir,
    ) == Kind::VerbatimDrive
}

/// Steps are written behind the prefix, the first behind a separator, and a
/// name at their end behind one too.
proof fn lemma_written(prefix: Seq<char>, parts: Seq<Part<Seq<char>>>)
    requires
        parts.len() > 0,
    ensures
        ({
            let path = written(prefix, parts);
            &&& path.len() > prefix.len()
            &&& path.take(prefix.len() as int) == prefix
            &&& path[prefix.len() as int] == '\\'
            &&& parts.last() is Root ==> path.last() == '\\'
            &&& parts.last() matches Part::Name(name) ==> {
                &&& path.len() > prefix.len() + name.len()
                &&& path == path.take(path.len() - name.len()) + name
                &&& path[path.len() - name.len() - 1] == '\\'
            }
        }),
    decreases parts.len(),
{
    reveal_strlit("\\");
    let path = written(prefix, parts);
    let head = parts.drop_last();
    let before = written(prefix, head);
    if head.len() > 0 {
        lemma_written(prefix, head);
        assert(head.last() == parts[parts.len() - 2]);
    }
    assert(path.take(before.len() as int) =~= before);
    assert(path.take(prefix.len() as int) =~= before.take(prefix.len() as int));
    assert(before.take(prefix.len() as int) =~= prefix);
    if head.len() > 0 {
        assert(path[prefix.len() as int] == before[prefix.len() as int]);
    }
    if let Part::Name(name) = parts.last() {
        assert(path =~= path.take(path.len() - name.len()) + name);
    }
}

/// A plain name below a directory has the prefix of the directory in front, and
/// stands behind a separator or behind that prefix.
proof fn lemma_joined_plain(platform: Platform, dir: Seq<char>, name: Seq<char>)
    requires
        is_plain_name(platform, name),
        is_plain_dir(platform, dir),
    ensures
        ({
            let path = joined(platform, dir, name);
            let before = path.len() - name.len();
            let len = prefix_len(platform, path);
            let kind = prefix_kind(platform, path);
            &&& path == path.take(before) + name
            &&& kind == prefix_kind(platform, dir)
            &&& 0 <= len <= before
            &&& before > len ==> separates(platform, kind.is_verbatim(), path[before - 1])
        }),
{
    let path = joined(platform, dir, name);
    let before = path.len() - name.len();
    reveal_strlit("/");
    reveal_strlit("\\");
    assert(!is_separator(platform, name[0]));
    assert(prefix_kind(platform, name) == Kind::Absent);
    assert(prefix_len(platform, name) == 0);
    assert(!has_root(platform, name));
    if prefix_kind(platform, dir) == Kind::VerbatimDrive {
        let prefix = dir.take(6);
        let base = route(platform, dir).parts;
        lemma_plain_name_is_one_step(platform, name);
        let steps = seq![Part::Name(name)];
        assert(steps.drop_last() =~= Seq::empty());
        reveal_with_fuel(walked, 2);
        assert(walked(base, steps) == base.push(Part::Name(name)));
        lemma_written(prefix, base.push(Part::Name(name)));
        assert(forall|i: int| 0 <= i < 6 ==> path[i] == #[trigger] path.take(6)[i]);
        assert(forall|i: int| 0 <= i < 6 ==> dir[i] == #[trigger] prefix[i]);
        assert(path[6] == '\\');
        assert(prefix_kind(platform, path) == Kind::VerbatimDrive);
    } else if platform == Platform::Windows {
        assert(!is_separator(platform, dir[0]));
        assert(path[0] == dir[0] && path[1] == dir[1]);
        assert(prefix_kind(platform, path) == Kind::Drive);
    }
    assert(path =~= path.take(before) + name);
}

/// A plain name is one step.
proof fn lemma_plain_name_is_one_step(platform: Platform, name: Seq<char>)
    requires
        is_plain_name(platform, name),
    ensures
        route(platform, name).parts == seq![Part::Name(name)],
{
    assert(!is_separator(platform, name[0]));
    assert(prefix_kind(platform, name) == Kind::Absent);
    assert(!has_root(platform, name));
    assert(name.skip(0) =~= name);
    let none = Seq::<char>::empty();
    lemma_runs_of_clean_tail(platform, false, none, name);
    assert(none + name =~= name);
    let all = seq![name];
    assert(runs(platform, false, name) =~= all);
    assert(all.drop_last() =~= Seq::empty());
    reveal_with_fuel(parts_of, 2);
    assert(route(platform, name).parts =~= seq![Part::Name(name)]);
}

/// A name below a directory is the name that the path leads to. On Windows the
/// directory begins with a drive.
pub proof fn law_joined_name_is_found(platform: Platform, dir: Seq<char>, name: Seq<char>)
    requires
        is_plain_name(platform, name),
        is_plain_dir(platform, dir),
    ensures
        spec_file_name(platform, joined(platform, dir, name)) == Some(name),
{
    lemma_joined_plain(platform, dir, name);
    lemma_name_is_found(platform, joined(platform, dir, name), name);
}

/// A path that ends with a plain name leads to it.
proof fn lemma_name_is_found(platform: Platform, path: Seq<char>, name: Seq<char>)
    requires
        is_plain_name(platform, name),
        path.len() >= name.len(),
        path == path.take(path.len() - name.len()) + name,
        0 <= prefix_len(platform, path) <= path.len() - name.len(),
        path.len() - name.len() > prefix_len(platform, path) ==> separates(
            platform,
            prefix_kind(platform, path).is_verbatim(),
            path[path.len() - name.len() - 1],
        ),
    ensures
        spec_file_name(platform, path) == Some(name),
{
    let verbatim = prefix_kind(platform, path).is_verbatim();
    let before = path.len() - name.len();
    let len = prefix_len(platform, path);
    let rooted = has_root(platform, path);
    let start = if rooted {
        len + 1
    } else {
        len
    };
    let body = path.skip(start);
    assert(!is_separator(platform, name[0]));
    if len == before {
        assert(path[len] == name[0]);
    }
    let head = body.take(before - start);
    assert(body =~= head + name);
    if head.len() > 0 {
        assert(head.last() == path[before - 1]);
    }
    lemma_runs_of_clean_tail(platform, verbatim, head, name);
    let all = runs(platform, verbatim, body);
    let relative = prefix_kind(platform, path) == Kind::Absent && !rooted;
    let steps = parts_of(all, verbatim, relative);
    assert(all.last() == name);
    assert(steps.last() == Part::Name(name));
    assert((seq![Part::<Seq<char>>::Root] + steps).last() == steps.last());
}

/// Whether two paths are the same does not depend on how either is written:
/// paths that are the same as a third are the same.
pub proof fn law_same_path_is_an_equivalence(
    platform: Platform,
    a: Seq<char>,
    b: Seq<char>,
    c: Seq<char>,
)
    ensures
        same_path(platform, a, a),
        same_path(platform, a, b) == same_path(platform, b, a),
        same_path(platform, a, b) && same_path(platform, b, c) ==> same_path(platform, a, c),
{
}

/// The same path leads to a file of the same name.
pub proof fn law_same_path_has_one_name(platform: Platform, a: Seq<char>, b: Seq<char>)
    requires
        same_path(platform, a, b),
    ensures
        spec_file_name(platform, a) == spec_file_name(platform, b),
{
}

/// A separator at the end of a path does not make it another one.
pub proof fn law_separator_at_the_end_does_not_count(path: Seq<char>)
    requires
        path.len() > 0,
    ensures
        same_path(Platform::Linux, path + "/"@, path),
{
    reveal_strlit("/");
    let platform = Platform::Linux;
    let longer = path + "/"@;
    let start: int = if has_root(platform, path) {
        1
    } else {
        0
    };
    assert(longer[0] == path[0]);
    assert(longer.skip(start) =~= path.skip(start) + "/"@);
    lemma_runs_before_separator(path.skip(start));
    assert(route(platform, longer) =~= route(platform, path));
}

proof fn lemma_runs_before_separator(text: Seq<char>)
    ensures
        runs(Platform::Linux, false, text + "/"@) == runs(Platform::Linux, false, text),
{
    reveal_strlit("/");
    assert(text + "/"@ =~= text.push('/'));
    lemma_runs_before_a_separator(Platform::Linux, false, text, '/');
}

// ------------------------------------------------------------- step by step

/// A separator at the end adds nothing to what stands between separators.
proof fn lemma_runs_before_a_separator(platform: Platform, verbatim: bool, text: Seq<char>, c: char)
    requires
        separates(platform, verbatim, c),
    ensures
        runs(platform, verbatim, text.push(c)) == runs(platform, verbatim, text),
    decreases text.len(),
{
    let longer = text.push(c);
    let end = run_end(platform, verbatim, text, 0);
    lemma_run_end_bounds(platform, verbatim, text, 0);
    assert forall|i: int| 0 <= i < end implies !separates(
        platform,
        verbatim,
        #[trigger] longer[i],
    ) by {
        assert(longer[i] == text[i]);
    }
    if end < text.len() {
        assert(longer[end] == text[end]);
    }
    lemma_run_end_is(platform, verbatim, longer, 0, end);
    assert(longer.take(end) =~= text.take(end));
    if end < text.len() {
        assert(longer.skip(end + 1) =~= text.skip(end + 1).push(c));
        lemma_runs_before_a_separator(platform, verbatim, text.skip(end + 1), c);
    } else {
        reveal_with_fuel(runs, 2);
        assert(longer.skip(end + 1) =~= Seq::empty());
        let first = if end > 0 {
            seq![text.take(end)]
        } else {
            Seq::empty()
        };
        assert(first + Seq::<Seq<char>>::empty() =~= first);
    }
}

/// A name below a directory is one step more than the directory: all steps of
/// the directory, and the name behind them. On Windows the directory begins
/// with a drive.
pub proof fn law_name_is_one_step_more(platform: Platform, dir: Seq<char>, name: Seq<char>)
    requires
        is_plain_name(platform, name),
        platform == Platform::Windows ==> prefix_kind(platform, dir) == Kind::Drive,
    ensures
        ({
            let path = joined(platform, dir, name);
            &&& route(platform, path).prefix == route(platform, dir).prefix
            &&& route(platform, path).parts == route(platform, dir).parts.push(Part::Name(name))
        }),
{
    let path = joined(platform, dir, name);
    let len = prefix_len(platform, dir);
    let rooted = has_root(platform, dir);
    let start = if rooted {
        len + 1
    } else {
        len
    };
    let body = dir.skip(start);
    reveal_strlit("/");
    reveal_strlit("\\");
    lemma_joined_plain(platform, dir, name);
    assert(!is_separator(platform, name[0]));
    assert(prefix_kind(platform, name) == Kind::Absent);
    assert(!has_root(platform, name));
    let mark = if platform == Platform::Windows {
        '\\'
    } else {
        '/'
    };
    let bare = dir.len() == 0 || is_separator(platform, dir.last()) || (prefix_kind(platform, dir)
        == Kind::Drive && dir.len() == 2);
    let head = if bare {
        body
    } else {
        body.push(mark)
    };
    if platform == Platform::Windows {
        assert(path[0] == dir[0] && path[1] == dir[1]);
        assert(folded(path.subrange(0, 1)) =~= folded(dir.subrange(0, 1)));
    }
    assert(has_root(platform, path) == rooted) by {
        if len < dir.len() {
            assert(path[len] == dir[len]);
        } else if path.len() > len {
            assert(path[len] == name[0]);
        }
    }
    assert(path.skip(start) =~= head + name);
    if bare && body.len() > 0 {
        assert(body.last() == dir.last());
    }
    lemma_runs_of_clean_tail(platform, false, head, name);
    if !bare {
        lemma_runs_before_a_separator(platform, false, body, mark);
    }
    let all = runs(platform, false, body);
    assert(runs(platform, false, path.skip(start)) == all.push(name));
    let relative = prefix_kind(platform, dir) == Kind::Absent && !rooted;
    assert(all.push(name).drop_last() =~= all);
    assert(parts_of(all.push(name), false, relative) == parts_of(all, false, relative).push(
        Part::Name(name),
    ));
    assert(route(platform, path).parts =~= route(platform, dir).parts.push(Part::Name(name)));
}

/// Different names below a directory are different paths, and one name below
/// the same directory, however that is written, is one path.
pub proof fn law_names_tell_paths_apart(
    platform: Platform,
    a: Seq<char>,
    b: Seq<char>,
    x: Seq<char>,
    y: Seq<char>,
)
    requires
        is_plain_name(platform, x),
        is_plain_name(platform, y),
        platform == Platform::Windows ==> prefix_kind(platform, a) == Kind::Drive && prefix_kind(
            platform,
            b,
        ) == Kind::Drive,
    ensures
        same_path(platform, joined(platform, a, x), joined(platform, b, y)) <==> same_path(
            platform,
            a,
            b,
        ) && x == y,
{
    law_name_is_one_step_more(platform, a, x);
    law_name_is_one_step_more(platform, b, y);
    let (p, q) = (route(platform, a).parts, route(platform, b).parts);
    let (m, n) = (p.push(Part::Name(x)), q.push(Part::Name(y)));
    if m == n {
        assert(m.last() == n.last());
        assert(p =~= m.drop_last());
        assert(q =~= n.drop_last());
    }
}

/// On Linux a path with a root of its own stays what it is, and any other one is
/// put behind the directory with one separator between them.
pub proof fn law_linux_paths_are_put_together(dir: Seq<char>, leaf: Seq<char>)
    ensures
        leaf.len() > 0 && leaf[0] == '/' ==> joined(Platform::Linux, dir, leaf) == leaf,
        (leaf.len() == 0 || leaf[0] != '/') && dir.len() > 0 && dir.last() != '/' ==> joined(
            Platform::Linux,
            dir,
            leaf,
        ) == dir + "/"@ + leaf,
        (leaf.len() == 0 || leaf[0] != '/') && (dir.len() == 0 || dir.last() == '/') ==> joined(
            Platform::Linux,
            dir,
            leaf,
        ) == dir + leaf,
{
    assert(dir.take(0) + leaf =~= leaf);
}

/// On Windows a path with a drive of its own stays what it is, one with a root
/// keeps the drive of the directory, and any other one is put behind it.
pub proof fn law_windows_paths_are_put_together(dir: Seq<char>, leaf: Seq<char>)
    requires
        drive_at(dir, 0),
    ensures
        drive_at(leaf, 0) ==> joined(Platform::Windows, dir, leaf) == leaf,
        leaf.len() == 1 && (leaf[0] == '\\' || leaf[0] == '/') ==> joined(
            Platform::Windows,
            dir,
            leaf,
        ) == dir.take(2) + leaf,
        leaf.len() > 1 && (leaf[0] == '\\' || leaf[0] == '/') && leaf[1] != '\\' && leaf[1] != '/'
            ==> joined(Platform::Windows, dir, leaf) == dir.take(2) + leaf,
        leaf.len() > 0 && leaf[0] != '\\' && leaf[0] != '/' && !drive_at(leaf, 0) ==> joined(
            Platform::Windows,
            dir,
            leaf,
        ) == if dir.len() == 2 || dir.last() == '\\' || dir.last() == '/' {
            dir + leaf
        } else {
            dir + "\\"@ + leaf
        },
{
    assert(!is_separator(Platform::Windows, dir[0]));
    assert(prefix_kind(Platform::Windows, dir) == Kind::Drive);
}

/// A step in place changes nothing behind other steps, and stays where a
/// relative path begins with it; a step up is kept.
pub proof fn law_steps_of_dots(dir: Seq<char>)
    requires
        dir.len() > 0,
    ensures
        same_path(Platform::Linux, joined(Platform::Linux, dir, "."@), dir),
        route(Platform::Linux, joined(Platform::Linux, dir, ".."@)).parts == route(
            Platform::Linux,
            dir,
        ).parts.push(Part::Up),
        route(Platform::Linux, "."@).parts == seq![Part::<Seq<char>>::Here],
        route(Platform::Linux, "/"@).parts == seq![Part::<Seq<char>>::Root],
        route(Platform::Linux, ""@).parts.len() == 0,
{
    reveal_strlit(".");
    reveal_strlit("..");
    reveal_strlit("/");
    reveal_strlit("");
    let platform = Platform::Linux;
    lemma_dots_below(dir, "."@);
    lemma_dots_below(dir, ".."@);
    let start: int = if has_root(platform, dir) {
        1
    } else {
        0
    };
    let all = runs(platform, false, dir.skip(start));
    let relative = !has_root(platform, dir);
    assert("."@ =~= seq!['.']);
    assert(".."@ =~= seq!['.', '.']);
    assert(".."@ != seq!['.']) by {
        assert(".."@.len() == 2);
    }
    assert(all.push("."@).drop_last() =~= all);
    assert(all.push(".."@).drop_last() =~= all);
    if relative {
        lemma_some_run(dir.skip(start));
    }
    let none = Seq::<char>::empty();
    reveal_with_fuel(runs, 2);
    reveal_with_fuel(parts_of, 2);
    assert(runs(platform, false, none) =~= Seq::empty());
    lemma_run_end_is(platform, false, "."@, 0, 1);
    assert("."@.take(1) =~= "."@);
    assert("."@.skip(0) =~= "."@);
    assert(runs(platform, false, "."@) =~= seq!["."@]);
    assert(seq!["."@].drop_last() =~= Seq::empty());
    assert(parts_of(seq!["."@], false, true) =~= seq![Part::Here]);
    assert("/"@.skip(1) =~= none);
    assert(""@ =~= none);
    assert(""@.skip(0) =~= none);
    assert(route(platform, "/"@).parts =~= seq![Part::Root]);
    assert(route(platform, "."@).parts =~= seq![Part::Here]);
    assert(route(platform, joined(platform, dir, ".."@)).parts =~= route(
        platform,
        dir,
    ).parts.push(Part::Up));
    assert(route(platform, joined(platform, dir, "."@)) =~= route(platform, dir));
}

/// A text that does not begin with a separator has a run.
proof fn lemma_some_run(text: Seq<char>)
    requires
        text.len() > 0,
        text[0] != '/',
    ensures
        runs(Platform::Linux, false, text).len() > 0,
{
    lemma_run_end_bounds(Platform::Linux, false, text, 0);
    assert(run_end(Platform::Linux, false, text, 0) > 0);
}

proof fn lemma_dots_below(dir: Seq<char>, dots: Seq<char>)
    requires
        dir.len() > 0,
        dots.len() > 0,
        forall|i: int| 0 <= i < dots.len() ==> #[trigger] dots[i] == '.',
    ensures
        ({
            let path = joined(Platform::Linux, dir, dots);
            let start: int = if has_root(Platform::Linux, dir) {
                1
            } else {
                0
            };
            &&& has_root(Platform::Linux, path) == has_root(Platform::Linux, dir)
            &&& runs(Platform::Linux, false, path.skip(start)) == runs(
                Platform::Linux,
                false,
                dir.skip(start),
            ).push(dots)
        }),
{
    reveal_strlit("/");
    let platform = Platform::Linux;
    let path = joined(platform, dir, dots);
    let start: int = if has_root(platform, dir) {
        1
    } else {
        0
    };
    let body = dir.skip(start);
    assert(dots[0] == '.');
    assert(path[0] == dir[0]);
    let bare = dir.last() == '/';
    let head = if bare {
        body
    } else {
        body.push('/')
    };
    assert(path.skip(start) =~= head + dots);
    if bare && body.len() > 0 {
        assert(body.last() == dir.last());
    }
    assert forall|i: int| 0 <= i < dots.len() implies !separates(
        platform,
        false,
        #[trigger] dots[i],
    ) by {
        assert(dots[i] == '.');
    }
    lemma_runs_of_clean_tail(platform, false, head, dots);
    if !bare {
        lemma_runs_before_a_separator(platform, false, body, '/');
    }
}

// ---------------------------------------------------------------- name by name

proof fn lemma_last_dot(name: Seq<char>)
    ensures
        -1 <= last_dot(name) < name.len(),
        last_dot(name) >= 0 ==> name[last_dot(name)] == '.',
        forall|i: int| last_dot(name) < i < name.len() ==> #[trigger] name[i] != '.',
    decreases name.len(),
{
    if name.len() > 0 && name.last() != '.' {
        let head = name.drop_last();
        lemma_last_dot(head);
        assert forall|i: int| last_dot(name) < i < name.len() implies #[trigger] name[i] != '.' by {
            if i < head.len() {
                assert(name[i] == head[i]);
            }
        }
    }
}

/// A name is its stem, a dot and its extension. The extension is what stands
/// behind the last dot, and a dot in front makes none.
pub proof fn law_name_is_stem_and_extension(name: Seq<char>, extension: Seq<char>)
    ensures
        has_extension(name, extension) ==> {
            &&& name == spec_stem(name) + "."@ + extension
            &&& spec_stem(name).len() > 0
            &&& !extension.contains('.')
        },
        !name.contains('.') ==> spec_stem(name) == name && !has_extension(name, extension),
        name.len() > 0 && name[0] == '.' && !name.drop_first().contains('.') ==> spec_stem(name)
            == name && !has_extension(name, extension),
{
    reveal_strlit(".");
    lemma_last_dot(name);
    let dot = last_dot(name);
    if has_extension(name, extension) {
        assert(name =~= spec_stem(name) + "."@ + extension);
        assert forall|i: int| 0 <= i < extension.len() implies extension[i] != '.' by {
            assert(extension[i] == name[dot + 1 + i]);
        }
    }
    if dot > 0 {
        assert(name.contains(name[dot]));
        assert(name.drop_first()[dot - 1] == name[dot]);
    }
}

/// Whatever is put in front of a dot and an extension is the stem again.
pub proof fn law_extension_is_found(stem: Seq<char>, extension: Seq<char>)
    requires
        stem.len() > 0,
        !extension.contains('.'),
    ensures
        has_extension(stem + "."@ + extension, extension),
        spec_stem(stem + "."@ + extension) == stem,
{
    reveal_strlit(".");
    let name = stem + "."@ + extension;
    lemma_last_dot(name);
    let dot = last_dot(name);
    assert(name[stem.len() as int] == '.');
    assert(dot == stem.len()) by {
        if dot > stem.len() {
            assert(name[dot] == extension[dot - stem.len() - 1]);
            assert(extension.contains(extension[dot - stem.len() - 1]));
        }
    }
    assert(name.take(dot) =~= stem);
    assert(name.skip(dot + 1) =~= extension);
}

// ------------------------------------------------------------------ of Windows

/// A path of Windows with its slashes turned.
pub open spec fn turned(path: Seq<char>) -> Seq<char> {
    path.map_values(
        |c: char|
            if c == '/' {
                '\\'
            } else {
                c
            },
    )
}

proof fn lemma_run_end_turned(path: Seq<char>, from: int)
    requires
        0 <= from <= path.len(),
    ensures
        run_end(Platform::Windows, false, turned(path), from) == run_end(
            Platform::Windows,
            false,
            path,
            from,
        ),
    decreases path.len() - from,
{
    if from < path.len() {
        lemma_run_end_turned(path, from + 1);
    }
}

proof fn lemma_runs_turned(text: Seq<char>)
    ensures
        runs(Platform::Windows, false, turned(text)) == runs(Platform::Windows, false, text),
    decreases text.len(),
{
    let platform = Platform::Windows;
    let end = run_end(platform, false, text, 0);
    lemma_run_end_turned(text, 0);
    lemma_run_end_bounds(platform, false, text, 0);
    assert(turned(text).take(end) =~= text.take(end)) by {
        assert forall|i: int| 0 <= i < end implies turned(text)[i] == text[i] by {
            assert(!separates(platform, false, text[i]));
        }
    }
    if end < text.len() {
        assert(turned(text).skip(end + 1) =~= turned(text.skip(end + 1)));
        lemma_runs_turned(text.skip(end + 1));
    }
}

/// On a drive, a slash and a backslash are one separator, and the letter of the
/// drive is one drive in either case.
pub proof fn law_writing_of_a_drive_does_not_matter(path: Seq<char>, letter: char)
    requires
        drive_at(path, 0),
        'a' <= letter <= 'z',
        path[0] == letter || path[0] as int == letter as int - 32,
    ensures
        same_path(Platform::Windows, turned(path), path),
        same_path(Platform::Windows, path.update(0, letter), path),
        prefix_kind(Platform::Windows, path) == Kind::Drive,
{
    let platform = Platform::Windows;
    let (a, b) = (turned(path), path.update(0, letter));
    assert(!is_separator(platform, path[0]));
    assert(a[0] == path[0] && a[1] == path[1]);
    assert(prefix_kind(platform, path) == Kind::Drive);
    assert(prefix_kind(platform, a) == Kind::Drive);
    assert(prefix_kind(platform, b) == Kind::Drive);
    assert(folded(a.subrange(0, 1)) =~= folded(path.subrange(0, 1)));
    assert(folded(b.subrange(0, 1)) =~= folded(path.subrange(0, 1)));
    let rooted = has_root(platform, path);
    assert(has_root(platform, a) == rooted);
    assert(has_root(platform, b) == rooted);
    let start: int = if rooted {
        3
    } else {
        2
    };
    assert(a.skip(start) =~= turned(path.skip(start)));
    lemma_runs_turned(path.skip(start));
    assert(b.skip(start) =~= path.skip(start));
}

/// A share is a server and a name behind two separators; what comes behind it
/// has a root, written or not.
pub proof fn law_share_is_a_prefix(server: Seq<char>, share: Seq<char>, name: Seq<char>)
    requires
        is_plain_name(Platform::Windows, server),
        is_plain_name(Platform::Windows, share),
        is_plain_name(Platform::Windows, name),
        server != seq!['?'],
    ensures
        ({
            let place = seq!['\\', '\\'] + server + seq!['\\'] + share;
            let path = place + seq!['\\'] + name;
            &&& route(Platform::Windows, place).prefix == (Prefix {
                kind: Kind::Share,
                name: server,
                share,
            })
            &&& route(Platform::Windows, place).parts == seq![Part::<Seq<char>>::Root]
            &&& route(Platform::Windows, path).prefix == route(Platform::Windows, place).prefix
            &&& route(Platform::Windows, path).parts == seq![Part::Root, Part::Name(name)]
        }),
{
    let place = seq!['\\', '\\'] + server + seq!['\\'] + share;
    lemma_route_of_a_share(server, share, place);
    lemma_route_behind_a_share(server, share, place, name);
}

proof fn lemma_route_of_a_share(server: Seq<char>, share: Seq<char>, place: Seq<char>)
    requires
        is_plain_name(Platform::Windows, server),
        is_plain_name(Platform::Windows, share),
        server != seq!['?'],
        place == seq!['\\', '\\'] + server + seq!['\\'] + share,
    ensures
        route(Platform::Windows, place) == (Route {
            prefix: Prefix { kind: Kind::Share, name: server, share },
            parts: seq![Part::Root],
        }),
{
    lemma_share(Platform::Windows, server, share, Seq::empty());
    assert(place + Seq::<char>::empty() =~= place);
    lemma_nothing_behind_a_prefix(place);
}

proof fn lemma_route_behind_a_share(
    server: Seq<char>,
    share: Seq<char>,
    place: Seq<char>,
    name: Seq<char>,
)
    requires
        is_plain_name(Platform::Windows, server),
        is_plain_name(Platform::Windows, share),
        is_plain_name(Platform::Windows, name),
        server != seq!['?'],
        place == seq!['\\', '\\'] + server + seq!['\\'] + share,
    ensures
        route(Platform::Windows, place + seq!['\\'] + name) == (Route {
            prefix: Prefix { kind: Kind::Share, name: server, share },
            parts: seq![Part::Root, Part::Name(name)],
        }),
{
    let path = place + seq!['\\'] + name;
    lemma_share(Platform::Windows, server, share, seq!['\\'] + name);
    assert(place + (seq!['\\'] + name) =~= path);
    assert(path.skip((place.len() + 1) as int) =~= name);
    lemma_name_behind_a_prefix(path, place.len() as int, name);
}

/// A prefix that implies a root, and nothing behind it.
proof fn lemma_nothing_behind_a_prefix(path: Seq<char>)
    requires
        prefix_len(Platform::Windows, path) == path.len(),
        prefix_kind(Platform::Windows, path).implies_root(),
    ensures
        route(Platform::Windows, path).parts == seq![Part::<Seq<char>>::Root],
{
    let none = Seq::<char>::empty();
    assert(path.skip(path.len() as int) =~= none);
    assert(runs(Platform::Windows, false, none) =~= Seq::empty());
    assert(route(Platform::Windows, path).parts =~= seq![Part::Root]);
}

/// A prefix, the root and one name.
proof fn lemma_name_behind_a_prefix(path: Seq<char>, len: int, name: Seq<char>)
    requires
        prefix_kind(Platform::Windows, path) != Kind::Absent,
        prefix_len(Platform::Windows, path) == len,
        0 <= len < path.len(),
        path[len] == '\\',
        path.skip(len + 1) == name,
        is_plain_name(Platform::Windows, name),
    ensures
        route(Platform::Windows, path).parts == seq![Part::Root, Part::Name(name)],
{
    let platform = Platform::Windows;
    let verbatim = prefix_kind(platform, path).is_verbatim();
    let none = Seq::<char>::empty();
    assert forall|i: int| 0 <= i < name.len() implies !separates(
        platform,
        verbatim,
        #[trigger] name[i],
    ) by {
        assert(!is_separator(platform, name[i]));
    }
    lemma_runs_of_clean_tail(platform, verbatim, none, name);
    assert(none + name =~= name);
    let all = seq![name];
    assert(runs(platform, verbatim, name) =~= all);
    assert(all.drop_last() =~= Seq::empty());
    reveal_with_fuel(parts_of, 2);
    assert(parts_of(all, verbatim, false) =~= seq![Part::Name(name)]);
    assert(route(platform, path).parts =~= seq![Part::Root, Part::Name(name)]);
}

proof fn lemma_share(platform: Platform, server: Seq<char>, share: Seq<char>, rest: Seq<char>)
    requires
        platform == Platform::Windows,
        is_plain_name(platform, server),
        is_plain_name(platform, share),
        server != seq!['?'],
        rest.len() > 0 ==> rest[0] == '\\',
    ensures
        ({
            let place = seq!['\\', '\\'] + server + seq!['\\'] + share;
            let path = place + rest;
            &&& prefix_kind(platform, path) == Kind::Share
            &&& prefix_len(platform, path) == place.len()
            &&& prefix_of(platform, path) == (Prefix { kind: Kind::Share, name: server, share })
        }),
{
    let place = seq!['\\', '\\'] + server + seq!['\\'] + share;
    let path = place + rest;
    let s: int = 2 + server.len() as int;
    assert forall|i: int| 2 <= i < s implies !separates(platform, false, #[trigger] path[i]) by {
        assert(path[i] == server[i - 2]);
        assert(!is_separator(platform, server[i - 2]));
    }
    assert(path[s] == '\\');
    lemma_run_end_is(platform, false, path, 2, s);
    assert forall|i: int| s + 1 <= i < place.len() implies !separates(
        platform,
        false,
        #[trigger] path[i],
    ) by {
        assert(path[i] == share[i - s - 1]);
        assert(!is_separator(platform, share[i - s - 1]));
    }
    if rest.len() > 0 {
        assert(path[place.len() as int] == rest[0]);
    }
    lemma_run_end_is(platform, false, path, s + 1, place.len() as int);
    assert(path[0] == '\\' && path[1] == '\\');
    assert(path[2] == server[0]);
    assert(!is_separator(platform, server[0]));
    if server.len() == 1 {
        assert(server[0] != '?') by {
            if server[0] == '?' {
                assert(server =~= seq!['?']);
            }
        }
        assert(server[0] != '.') by {
            if server[0] == '.' {
                assert(server =~= seq!['.']);
            }
        }
    } else {
        assert(path[3] == server[1]);
        assert(!is_separator(platform, server[1]));
    }
    assert(path.subrange(2, s) =~= server);
    assert(path.subrange(s + 1, place.len() as int) =~= share);
}

/// Behind a verbatim drive there are no steps to be resolved later: a name is
/// put behind a separator, a step up takes the last name off, and a step in
/// place is left out. A slash there is part of a name.
pub proof fn law_verbatim_steps_are_resolved(drive: Seq<char>, x: Seq<char>, y: Seq<char>)
    requires
        drive.len() == 7,
        drive[0] == '\\' && drive[1] == '\\' && drive[2] == '?' && drive[3] == '\\',
        drive_at(drive, 4),
        drive[6] == '\\',
        is_plain_name(Platform::Windows, x),
        is_plain_name(Platform::Windows, y),
    ensures
        joined(Platform::Windows, drive + x, y) == drive + x + "\\"@ + y,
        joined(Platform::Windows, drive + x, ".."@) == drive,
        joined(Platform::Windows, drive + x, "."@) == drive + x,
        spec_file_name(Platform::Windows, drive + x + "/"@ + y) == Some(x + "/"@ + y),
{
    let platform = Platform::Windows;
    let dir = drive + x;
    reveal_strlit("\\");
    reveal_strlit("/");
    reveal_strlit(".");
    reveal_strlit("..");
    assert(dir.skip(7) =~= x);
    assert(prefix_kind(platform, dir) == Kind::VerbatimDrive);
    lemma_name_behind_a_prefix(dir, 6, x);
    let parts = seq![Part::Root, Part::Name(x)];
    let prefix = dir.take(6);
    lemma_plain_name_is_one_step(platform, y);
    assert(!is_separator(platform, y[0]));
    lemma_dots_are_one_step();
    lemma_walked_once(parts, Part::Name(y));
    lemma_walked_once(parts, Part::Up);
    lemma_walked_once(parts, Part::Here);
    assert(parts.drop_last() =~= seq![Part::Root]);
    assert(seq![Part::<Seq<char>>::Root].drop_last() =~= Seq::empty());
    assert(written(prefix, Seq::empty()) == prefix);
    assert(written(prefix, seq![Part::Root]) =~= drive);
    assert(written(prefix, parts) =~= dir);
    assert(parts.push(Part::Name(y)).drop_last() =~= parts);
    assert(written(prefix, parts.push(Part::Name(y))) =~= dir + "\\"@ + y);
    lemma_slash_is_part_of_a_name(drive, x, y);
}

proof fn lemma_slash_is_part_of_a_name(drive: Seq<char>, x: Seq<char>, y: Seq<char>)
    requires
        drive.len() == 7,
        drive[0] == '\\' && drive[1] == '\\' && drive[2] == '?' && drive[3] == '\\',
        drive_at(drive, 4),
        drive[6] == '\\',
        is_plain_name(Platform::Windows, x),
        is_plain_name(Platform::Windows, y),
    ensures
        spec_file_name(Platform::Windows, drive + x + "/"@ + y) == Some(x + "/"@ + y),
{
    let platform = Platform::Windows;
    reveal_strlit("/");
    let name = x + "/"@ + y;
    let path = drive + x + "/"@ + y;
    assert(prefix_kind(platform, path) == Kind::VerbatimDrive);
    assert(path.skip(7) =~= name);
    assert forall|i: int| 0 <= i < name.len() implies !separates(
        platform,
        true,
        #[trigger] name[i],
    ) by {
        if i < x.len() {
            assert(!is_separator(platform, x[i]));
        } else if i > x.len() {
            assert(!is_separator(platform, y[i - x.len() - 1]));
        }
    }
    let none = Seq::<char>::empty();
    lemma_runs_of_clean_tail(platform, true, none, name);
    assert(none + name =~= name);
    let all = seq![name];
    assert(runs(platform, true, name) =~= all);
    assert(all.drop_last() =~= Seq::empty());
    reveal_with_fuel(parts_of, 2);
    assert(name[x.len() as int] == '/');
    assert(parts_of(all, true, false) =~= seq![Part::Name(name)]);
    assert(route(platform, path).parts.last() == Part::Name(name));
}

proof fn lemma_walked_once(parts: Seq<Part<Seq<char>>>, step: Part<Seq<char>>)
    ensures
        walked(parts, seq![step]) == stepped(parts, step),
{
    assert(seq![step].drop_last() =~= Seq::empty());
    assert(walked(parts, Seq::empty()) == parts);
}

proof fn lemma_dots_are_one_step()
    ensures
        route(Platform::Windows, "."@).parts == seq![Part::<Seq<char>>::Here],
        route(Platform::Windows, ".."@).parts == seq![Part::<Seq<char>>::Up],
        prefix_kind(Platform::Windows, "."@) == Kind::Absent,
        prefix_kind(Platform::Windows, ".."@) == Kind::Absent,
{
    let platform = Platform::Windows;
    reveal_strlit(".");
    reveal_strlit("..");
    let none = Seq::<char>::empty();
    let (a, b) = ("."@, ".."@);
    lemma_runs_of_clean_tail(platform, false, none, a);
    lemma_runs_of_clean_tail(platform, false, none, b);
    assert(none + a =~= a);
    assert(none + b =~= b);
    assert(a.skip(0) =~= a);
    assert(b.skip(0) =~= b);
    assert(a =~= seq!['.']);
    assert(b =~= seq!['.', '.']);
    assert(runs(platform, false, none) =~= Seq::empty());
    assert(runs(platform, false, a) =~= seq![a]);
    assert(runs(platform, false, b) =~= seq![b]);
    assert(seq![a].drop_last() =~= Seq::empty());
    assert(seq![b].drop_last() =~= Seq::empty());
    assert(b != seq!['.']) by {
        assert(b.len() == 2);
    }
    reveal_with_fuel(parts_of, 2);
    assert(route(platform, a).parts =~= seq![Part::Here]);
    assert(route(platform, b).parts =~= seq![Part::Up]);
}

/// A device stands behind a dot between separators of either kind; what comes
/// behind it has a root, written or not.
pub proof fn law_device_is_a_prefix(
    a: char,
    b: char,
    c: char,
    device: Seq<char>,
    name: Seq<char>,
)
    requires
        a == '\\' || a == '/',
        b == '\\' || b == '/',
        c == '\\' || c == '/',
        is_plain_name(Platform::Windows, device),
        is_plain_name(Platform::Windows, name),
    ensures
        ({
            let place = seq![a, b, '.', c] + device;
            let prefix = Prefix { kind: Kind::Device, name: device, share: Seq::empty() };
            &&& route(Platform::Windows, place) == (Route { prefix, parts: seq![Part::Root] })
            &&& route(Platform::Windows, place + seq!['\\'] + name) == (Route {
                prefix,
                parts: seq![Part::Root, Part::Name(name)],
            })
        }),
{
    let place = seq![a, b, '.', c] + device;
    let path = place + seq!['\\'] + name;
    let none = Seq::<char>::empty();
    lemma_device(a, b, c, device, none);
    assert(place + none =~= place);
    lemma_device(a, b, c, device, seq!['\\'] + name);
    assert(place + (seq!['\\'] + name) =~= path);
    lemma_nothing_behind_a_prefix(place);
    assert(path.skip((place.len() + 1) as int) =~= name);
    lemma_name_behind_a_prefix(path, place.len() as int, name);
}

proof fn lemma_device(a: char, b: char, c: char, device: Seq<char>, rest: Seq<char>)
    requires
        a == '\\' || a == '/',
        b == '\\' || b == '/',
        c == '\\' || c == '/',
        is_plain_name(Platform::Windows, device),
        rest.len() > 0 ==> rest[0] == '\\',
    ensures
        ({
            let place = seq![a, b, '.', c] + device;
            &&& prefix_kind(Platform::Windows, place + rest) == Kind::Device
            &&& prefix_len(Platform::Windows, place + rest) == place.len()
            &&& prefix_of(Platform::Windows, place + rest) == (Prefix {
                kind: Kind::Device,
                name: device,
                share: Seq::empty(),
            })
        }),
{
    let platform = Platform::Windows;
    let place = seq![a, b, '.', c] + device;
    let path = place + rest;
    let end = place.len() as int;
    assert forall|i: int| 4 <= i < end implies !separates(platform, false, #[trigger] path[i]) by {
        assert(path[i] == device[i - 4]);
        assert(!is_separator(platform, device[i - 4]));
    }
    if rest.len() > 0 {
        assert(path[end] == rest[0]);
    }
    lemma_run_end_is(platform, false, path, 4, end);
    assert(path.subrange(4, end) =~= device);
}

/// A verbatim share is told by three capital letters, and is a server and a
/// name. Any other name between the separators is a prefix of its own.
pub proof fn law_verbatim_prefixes(
    server: Seq<char>,
    share: Seq<char>,
    other: Seq<char>,
    name: Seq<char>,
)
    requires
        is_plain_name(Platform::Windows, server),
        is_plain_name(Platform::Windows, share),
        is_plain_name(Platform::Windows, other),
        is_plain_name(Platform::Windows, name),
        other != seq!['U', 'N', 'C'],
    ensures
        ({
            let verbatim = seq!['\\', '\\', '?', '\\'];
            let place = verbatim + seq!['U', 'N', 'C', '\\'] + server + seq!['\\'] + share;
            &&& route(Platform::Windows, place + seq!['\\'] + name) == (Route {
                prefix: Prefix { kind: Kind::VerbatimShare, name: server, share },
                parts: seq![Part::Root, Part::Name(name)],
            })
            &&& route(Platform::Windows, verbatim + other + seq!['\\'] + name) == (Route {
                prefix: Prefix { kind: Kind::Verbatim, name: other, share: Seq::empty() },
                parts: seq![Part::Root, Part::Name(name)],
            })
        }),
{
    lemma_verbatim_share(server, share, name);
    lemma_verbatim_other(other, name);
}

proof fn lemma_verbatim_share(server: Seq<char>, share: Seq<char>, name: Seq<char>)
    requires
        is_plain_name(Platform::Windows, server),
        is_plain_name(Platform::Windows, share),
        is_plain_name(Platform::Windows, name),
    ensures
        ({
            let place = seq!['\\', '\\', '?', '\\'] + seq!['U', 'N', 'C', '\\'] + server
                + seq!['\\'] + share;
            route(Platform::Windows, place + seq!['\\'] + name) == (Route {
                prefix: Prefix { kind: Kind::VerbatimShare, name: server, share },
                parts: seq![Part::Root, Part::Name(name)],
            })
        }),
{
    let platform = Platform::Windows;
    let place = seq!['\\', '\\', '?', '\\'] + seq!['U', 'N', 'C', '\\'] + server + seq!['\\']
        + share;
    let path = place + seq!['\\'] + name;
    let s: int = 8 + server.len() as int;
    let end = place.len() as int;
    assert forall|i: int| 8 <= i < s implies !separates(platform, true, #[trigger] path[i]) by {
        assert(path[i] == server[i - 8]);
        assert(!is_separator(platform, server[i - 8]));
    }
    assert(path[s] == '\\');
    lemma_run_end_is(platform, true, path, 8, s);
    assert forall|i: int| s + 1 <= i < end implies !separates(
        platform,
        true,
        #[trigger] path[i],
    ) by {
        assert(path[i] == share[i - s - 1]);
        assert(!is_separator(platform, share[i - s - 1]));
    }
    assert(path[end] == '\\');
    lemma_run_end_is(platform, true, path, s + 1, end);
    assert(prefix_kind(platform, path) == Kind::VerbatimShare);
    assert(path.subrange(8, s) =~= server);
    assert(path.subrange(s + 1, end) =~= share);
    assert(path.skip(end + 1) =~= name);
    lemma_name_behind_a_prefix(path, end, name);
}

proof fn lemma_verbatim_other(other: Seq<char>, name: Seq<char>)
    requires
        is_plain_name(Platform::Windows, other),
        is_plain_name(Platform::Windows, name),
        other != seq!['U', 'N', 'C'],
    ensures
        route(
            Platform::Windows,
            seq!['\\', '\\', '?', '\\'] + other + seq!['\\'] + name,
        ) == (Route {
            prefix: Prefix { kind: Kind::Verbatim, name: other, share: Seq::empty() },
            parts: seq![Part::Root, Part::Name(name)],
        }),
{
    let platform = Platform::Windows;
    let place = seq!['\\', '\\', '?', '\\'] + other;
    let path = place + seq!['\\'] + name;
    let end = place.len() as int;
    assert forall|i: int| 4 <= i < end implies !separates(platform, true, #[trigger] path[i]) by {
        assert(path[i] == other[i - 4]);
        assert(!is_separator(platform, other[i - 4]));
    }
    assert(path[end] == '\\');
    lemma_run_end_is(platform, true, path, 4, end);
    if path.len() >= 8 && path[4] == 'U' && path[5] == 'N' && path[6] == 'C' && is_separator(
        platform,
        path[7],
    ) {
        if end > 7 {
            assert(path[7] == other[3]);
            assert(!is_separator(platform, other[3]));
        }
        if end < 7 {
            assert(path[end] == '\\');
        }
        assert(other[0] == path[4] && other[1] == path[5] && other[2] == path[6]);
        assert(other =~= seq!['U', 'N', 'C']);
    }
    if drive_at(path, 4) {
        if end == 5 {
            assert(path[5] == '\\');
        }
        assert(other[0] == path[4] && other[1] == path[5]);
    }
    assert(prefix_kind(platform, path) == Kind::Verbatim);
    assert(path.subrange(4, end) =~= other);
    assert(path.skip(end + 1) =~= name);
    lemma_name_behind_a_prefix(path, end, name);
}

/// A share or a device is the same one with either separator.
pub proof fn law_writing_of_a_share_does_not_matter(path: Seq<char>)
    requires
        path.len() > 2 && path[2] != '?',
        prefix_kind(Platform::Windows, path).implies_root(),
    ensures
        same_path(Platform::Windows, turned(path), path),
{
    let platform = Platform::Windows;
    let other = turned(path);
    let kind = prefix_kind(platform, path);
    lemma_run_end_turned(path, 2);
    lemma_run_end_bounds(platform, false, path, 2);
    let server = run_end(platform, false, path, 2);
    if server < path.len() {
        lemma_run_end_turned(path, server + 1);
        lemma_run_end_bounds(platform, false, path, server + 1);
    }
    if path.len() >= 4 {
        lemma_run_end_turned(path, 4);
        lemma_run_end_bounds(platform, false, path, 4);
    }
    assert(forall|i: int|
        0 <= i < path.len() ==> is_separator(platform, #[trigger] other[i]) == is_separator(
            platform,
            path[i],
        ));
    assert(other[2] == path[2] || is_separator(platform, path[2]));
    assert(prefix_kind(platform, other) == kind);
    let len = prefix_len(platform, path);
    assert(prefix_len(platform, other) == len);
    let start: int = if has_root(platform, path) {
        len + 1
    } else {
        len
    };
    assert(has_root(platform, other) == has_root(platform, path));
    assert(other.skip(start) =~= turned(path.skip(start)));
    lemma_runs_turned(path.skip(start));
    assert(forall|i: int|
        0 <= i < path.len() && !is_separator(platform, path[i]) ==> #[trigger] other[i] == path[i]);
    if kind == Kind::Device {
        assert(other.subrange(4, len) =~= path.subrange(4, len));
    } else {
        assert(other.subrange(2, server) =~= path.subrange(2, server));
        assert(other.subrange(server + 1, len) =~= path.subrange(server + 1, len));
    }
}

/// A step up from the root stays there.
pub proof fn law_nothing_is_above_the_root(drive: Seq<char>)
    requires
        drive.len() == 7,
        drive[0] == '\\' && drive[1] == '\\' && drive[2] == '?' && drive[3] == '\\',
        drive_at(drive, 4),
        drive[6] == '\\',
    ensures
        joined(Platform::Windows, drive, ".."@) == drive,
{
    let platform = Platform::Windows;
    reveal_strlit("\\");
    reveal_strlit("..");
    lemma_dots_are_one_step();
    let none = Seq::<char>::empty();
    assert(prefix_kind(platform, drive) == Kind::VerbatimDrive);
    assert(drive.skip(7) =~= none);
    assert(runs(platform, true, none) =~= Seq::empty());
    let parts = seq![Part::<Seq<char>>::Root];
    assert(route(platform, drive).parts =~= parts);
    lemma_walked_once(parts, Part::Up);
    assert(parts.drop_last() =~= Seq::empty());
    assert(written(drive.take(6), Seq::empty()) == drive.take(6));
    assert(written(drive.take(6), parts) =~= drive);
}

/// A server without the name of a share is no prefix, but a path from the root.
/// Behind a verbatim prefix it is one.
pub proof fn law_share_needs_a_name(server: Seq<char>)
    requires
        is_plain_name(Platform::Windows, server),
        server != seq!['?'],
    ensures
        prefix_kind(Platform::Windows, seq!['\\', '\\'] + server) == Kind::Absent,
        prefix_kind(Platform::Windows, seq!['\\', '\\'] + server + seq!['\\']) == Kind::Absent,
        has_root(Platform::Windows, seq!['\\', '\\'] + server),
        prefix_of(
            Platform::Windows,
            seq!['\\', '\\', '?', '\\', 'U', 'N', 'C', '\\'] + server + seq!['\\'],
        ) == (Prefix { kind: Kind::VerbatimShare, name: server, share: Seq::empty() }),
        has_root(
            Platform::Windows,
            seq!['\\', '\\', '?', '\\', 'U', 'N', 'C', '\\'] + server + seq!['\\'],
        ),
{
    let none = Seq::<char>::empty();
    let head = seq!['\\', '\\'];
    lemma_server_without_share(server, none);
    assert(head + server + none =~= head + server);
    lemma_server_without_share(server, seq!['\\']);
    lemma_verbatim_server(server);
}

proof fn lemma_server_without_share(server: Seq<char>, rest: Seq<char>)
    requires
        is_plain_name(Platform::Windows, server),
        server != seq!['?'],
        rest.len() == 0 || rest == seq!['\\'],
    ensures
        prefix_kind(Platform::Windows, seq!['\\', '\\'] + server + rest) == Kind::Absent,
{
    let platform = Platform::Windows;
    let path = seq!['\\', '\\'] + server + rest;
    let s: int = 2 + server.len() as int;
    assert forall|i: int| 2 <= i < s implies !separates(platform, false, #[trigger] path[i]) by {
        assert(path[i] == server[i - 2]);
        assert(!is_separator(platform, server[i - 2]));
    }
    if rest.len() > 0 {
        assert(path[s] == '\\');
        lemma_run_end_is(platform, false, path, s + 1, s + 1);
    }
    lemma_run_end_is(platform, false, path, 2, s);
    assert(path[2] == server[0]);
    assert(!is_separator(platform, server[0]));
    if server.len() == 1 {
        assert(server =~= seq![server[0]]);
    } else {
        assert(path[3] == server[1]);
        assert(!is_separator(platform, server[1]));
    }
}

proof fn lemma_verbatim_server(server: Seq<char>)
    requires
        is_plain_name(Platform::Windows, server),
    ensures
        ({
            let path = seq!['\\', '\\', '?', '\\', 'U', 'N', 'C', '\\'] + server + seq!['\\'];
            &&& prefix_of(Platform::Windows, path) == (Prefix {
                kind: Kind::VerbatimShare,
                name: server,
                share: Seq::empty(),
            })
            &&& has_root(Platform::Windows, path)
        }),
{
    let platform = Platform::Windows;
    let path = seq!['\\', '\\', '?', '\\', 'U', 'N', 'C', '\\'] + server + seq!['\\'];
    let s: int = 8 + server.len() as int;
    assert forall|i: int| 8 <= i < s implies !separates(platform, true, #[trigger] path[i]) by {
        assert(path[i] == server[i - 8]);
        assert(!is_separator(platform, server[i - 8]));
    }
    assert(path[s] == '\\');
    lemma_run_end_is(platform, true, path, 8, s);
    lemma_run_end_is(platform, true, path, s + 1, s + 1);
    assert(prefix_kind(platform, path) == Kind::VerbatimShare);
    assert(path.subrange(8, s) =~= server);
}

} // verus!
