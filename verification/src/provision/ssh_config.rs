//! The client configuration of OpenSSH: the host aliases that it declares, through its
//! includes, and the stanzas that name an alias.
use crate::paths;
use crate::provision::glob::{
    beside, glob_owed, glob_start, has_glob, is_entry_name, is_pattern, parent_part_leads_up,
    pattern_parts, walked, Tree,
};
use crate::text;
use vstd::prelude::*;

verus! {

// ---------------------------------------------------------------------------
// Lines
// ---------------------------------------------------------------------------

/// The logical lines of `lines`, behind what the lines before them have begun: a line
/// that ends in a backslash goes on in the next, with a space between them.
pub open spec fn logical(lines: Seq<Seq<char>>, begun: Seq<char>) -> Seq<Seq<char>>
    decreases lines.len(),
{
    if lines.len() == 0 {
        if begun.len() == 0 {
            Seq::empty()
        } else {
            seq![begun]
        }
    } else {
        let raw = lines[0];
        match text::before_suffix(text::trim_right(raw), "\\"@) {
            Some(part) => logical(lines.drop_first(), begun + text::trim_right(part) + " "@),
            None => seq![begun + raw] + logical(lines.drop_first(), Seq::empty()),
        }
    }
}

/// The logical lines of a configuration.
pub open spec fn logical_of(content: Seq<char>) -> Seq<Seq<char>> {
    logical(text::lines_of(content), Seq::empty())
}

/// The logical lines of a configuration.
pub fn logical_lines(content: &str) -> (out: Vec<String>)
    ensures
        text::texts(out@) == logical_of(content@),
{
    let lines = text::lines(content);
    let ghost all = text::texts(lines@);
    let mut out: Vec<String> = Vec::new();
    let mut begun = String::new();
    let mut i: usize = 0;
    proof {
        assert(begun@ =~= Seq::empty());
        assert(all.skip(0) =~= all);
        assert(text::texts(out@) + logical(all, begun@) =~= logical(all, begun@));
    }
    while i < lines.len()
        invariant
            i <= lines@.len(),
            all == text::texts(lines@),
            text::texts(out@) + logical(all.skip(i as int), begun@) == logical(
                all,
                Seq::empty(),
            ),
        decreases lines.len() - i,
    {
        let raw = lines[i].as_str();
        let ghost rest = all.skip(i as int);
        let ghost before = out@;
        let ghost was = begun@;
        proof {
            assert(rest[0] == raw@);
            assert(rest.drop_first() =~= all.skip(i + 1));
        }
        let kept = text::trim_end(raw);
        match text::strip_suffix(kept.as_str(), "\\") {
            Some(part) => {
                begun.append(text::trim_end(part.as_str()).as_str());
                begun.append(" ");
            },
            None => {
                begun.append(raw);
                let mut line = String::new();
                std::mem::swap(&mut line, &mut begun);
                out.push(line);
                proof {
                    assert(begun@ =~= Seq::empty());
                    text::texts_push(before, line);
                    assert(line@ == was + raw@);
                    assert(text::texts(out@) + logical(all.skip(i + 1), Seq::empty()) =~= text::texts(
                        before,
                    ) + (seq![was + raw@] + logical(all.skip(i + 1), Seq::empty())));
                }
            },
        }
        i += 1;
    }
    let ghost before = out@;
    if !begun.as_str().is_empty() {
        out.push(begun);
        proof {
            text::texts_push(before, begun);
            assert(text::texts(out@) =~= text::texts(before) + logical(all.skip(i as int), begun@));
        }
    } else {
        proof {
            assert(text::texts(out@) =~= text::texts(before) + logical(all.skip(i as int), begun@));
        }
    }
    out
}

// ---------------------------------------------------------------------------
// Words
// ---------------------------------------------------------------------------

/// The code of a character, a capital ASCII letter as its small one.
pub open spec fn folded(c: char) -> int {
    if 'A' <= c && c <= 'Z' {
        c as int + 32
    } else {
        c as int
    }
}

/// Whether two words are the same but for the case of ASCII letters.
pub open spec fn same_word(a: Seq<char>, b: Seq<char>) -> bool {
    a.len() == b.len() && forall|i: int|
        0 <= i < a.len() ==> folded(#[trigger] a[i]) == folded(b[i])
}

fn fold(c: char) -> (n: u32)
    ensures
        n == folded(c),
{
    if 'A' <= c && c <= 'Z' {
        c as u32 + 32
    } else {
        c as u32
    }
}

/// Whether two words are the same but for the case of ASCII letters.
pub fn eq_ignore_ascii_case(a: &str, b: &str) -> (r: bool)
    ensures
        r == same_word(a@, b@),
{
    let x = text::chars_of(a);
    let y = text::chars_of(b);
    if x.len() != y.len() {
        return false;
    }
    let mut i: usize = 0;
    while i < x.len()
        invariant
            x@ == a@,
            y@ == b@,
            x@.len() == y@.len(),
            i <= x@.len(),
            forall|j: int| 0 <= j < i ==> folded(#[trigger] x@[j]) == folded(y@[j]),
        decreases x.len() - i,
    {
        if fold(x[i]) != fold(y[i]) {
            proof {
                assert(folded(a@[i as int]) != folded(b@[i as int]));
            }
            return false;
        }
        i += 1;
    }
    true
}

// ---------------------------------------------------------------------------
// What a file declares
// ---------------------------------------------------------------------------

/// What a configuration file holds: an alias, or an include.
#[derive(Clone, Debug, PartialEq, Eq)]
pub enum SshItem {
    Alias(String),
    Include(String),
    /// A file that an include has named.
    File(String),
}

/// An [`SshItem`] with its text as a sequence.
pub enum ItemView {
    Alias(Seq<char>),
    Include(Seq<char>),
    File(Seq<char>),
}

impl View for SshItem {
    type V = ItemView;

    open spec fn view(&self) -> ItemView {
        match self {
            SshItem::Alias(s) => ItemView::Alias(s@),
            SshItem::Include(s) => ItemView::Include(s@),
            SshItem::File(s) => ItemView::File(s@),
        }
    }
}

/// The views of a sequence of items.
pub open spec fn item_views(v: Seq<SshItem>) -> Seq<ItemView> {
    v.map_values(|i: SshItem| i@)
}

/// Whether a `Host` pattern is an alias: it negates nothing, and stands for itself.
pub open spec fn is_alias(pattern: Seq<char>) -> bool {
    !text::begins(pattern, "!"@) && !is_pattern(pattern)
}

/// The items that the arguments of a directive are: each is an include, or an alias where
/// it can be one.
pub open spec fn arguments(args: Seq<Seq<char>>, includes: bool) -> Seq<ItemView>
    decreases args.len(),
{
    if args.len() == 0 {
        Seq::empty()
    } else {
        let rest = arguments(args.drop_last(), includes);
        if includes {
            rest.push(ItemView::Include(args.last()))
        } else if is_alias(args.last()) {
            rest.push(ItemView::Alias(args.last()))
        } else {
            rest
        }
    }
}

/// The items of a logical line. A comment has none, nor has any directive but `Host` and
/// `Include`.
pub open spec fn line_items(line: Seq<char>) -> Seq<ItemView> {
    let t = text::trimmed(line);
    let words = text::words(t);
    if t.len() == 0 || text::begins(t, "#"@) || words.len() == 0 {
        Seq::empty()
    } else if same_word(words[0], "Include"@) {
        arguments(words.skip(1), true)
    } else if same_word(words[0], "Host"@) {
        arguments(words.skip(1), false)
    } else {
        Seq::empty()
    }
}

/// The items of logical lines, in order.
pub open spec fn items_of(lines: Seq<Seq<char>>) -> Seq<ItemView>
    decreases lines.len(),
{
    if lines.len() == 0 {
        Seq::empty()
    } else {
        items_of(lines.drop_last()) + line_items(lines.last())
    }
}

/// Appends the items that the words from the second on are.
fn push_arguments(out: &mut Vec<SshItem>, words: &Vec<String>, includes: bool)
    requires
        words@.len() > 0,
    ensures
        item_views(final(out)@) == item_views(old(out)@) + arguments(
            text::texts(words@).skip(1),
            includes,
        ),
{
    let ghost all = text::texts(words@).skip(1);
    let ghost was = item_views(out@);
    let mut i: usize = 1;
    proof {
        assert(was + arguments(all.take(0), includes) =~= was);
    }
    while i < words.len()
        invariant
            1 <= i <= words@.len(),
            all == text::texts(words@).skip(1),
            item_views(out@) == was + arguments(all.take(i - 1), includes),
        decreases words.len() - i,
    {
        let ghost before = out@;
        let w = words[i].as_str();
        proof {
            let head = all.take(i as int);
            assert(head.drop_last() =~= all.take(i - 1));
            assert(head.last() == w@);
        }
        if includes {
            out.push(SshItem::Include(w.to_owned()));
            proof {
                assert(item_views(out@) =~= item_views(before).push(out@.last()@));
                assert(item_views(out@) =~= was + arguments(all.take(i as int), includes));
            }
        } else if !text::starts_with(w, "!") && !has_glob(w) {
            out.push(SshItem::Alias(w.to_owned()));
            proof {
                assert(item_views(out@) =~= item_views(before).push(out@.last()@));
                assert(item_views(out@) =~= was + arguments(all.take(i as int), includes));
            }
        }
        i += 1;
    }
    proof {
        assert(all.take(i - 1) =~= all);
    }
}

/// The aliases and includes of a configuration file, in order.
pub fn ssh_items(content: &str) -> (out: Vec<SshItem>)
    ensures
        item_views(out@) == items_of(logical_of(content@)),
{
    let lines = logical_lines(content);
    let ghost all = text::texts(lines@);
    let mut out: Vec<SshItem> = Vec::new();
    let mut i: usize = 0;
    proof {
        assert(item_views(out@) =~= items_of(all.take(0)));
    }
    while i < lines.len()
        invariant
            i <= lines@.len(),
            all == text::texts(lines@),
            item_views(out@) == items_of(all.take(i as int)),
        decreases lines.len() - i,
    {
        let t = text::trim(lines[i].as_str());
        let words = text::split_whitespace(t.as_str());
        let ghost before = item_views(out@);
        proof {
            let head = all.take(i + 1);
            assert(head.drop_last() =~= all.take(i as int));
            assert(head.last() == lines@[i as int]@);
            assert(text::texts(words@).len() == words@.len());
            assert(before + Seq::<ItemView>::empty() =~= before);
        }
        if !t.as_str().is_empty() && !text::starts_with(t.as_str(), "#") && words.len() > 0 {
            proof {
                assert(text::texts(words@)[0] == words@[0]@);
            }
            if eq_ignore_ascii_case(words[0].as_str(), "Include") {
                push_arguments(&mut out, &words, true);
            } else if eq_ignore_ascii_case(words[0].as_str(), "Host") {
                push_arguments(&mut out, &words, false);
            }
        }
        i += 1;
    }
    proof {
        assert(all.take(i as int) =~= all);
    }
    out
}

/// The path pattern of an include on the platform `os`, with slashes: `~` is the home
/// directory, and what is not absolute lies beside the file that includes it.
pub open spec fn include_path(
    pattern: Seq<char>,
    from: Seq<char>,
    home: Seq<char>,
    os: Seq<char>,
) -> Seq<char> {
    let written = paths::slashed(pattern, os);
    let expanded = if written == "~"@ {
        paths::slashed(home, os)
    } else {
        match text::after_prefix(written, "~/"@) {
            Some(rest) => paths::below_on(paths::slashed(home, os), rest, os),
            None => written,
        }
    };
    if paths::absolute_on(expanded, os) {
        expanded
    } else {
        paths::below_on(paths::parent_on(paths::slashed(from, os), os), expanded, os)
    }
}

/// The path pattern of an include on the platform `os`, with slashes.
pub fn expand_include(pattern: &str, from: &str, home: &str, os: &str) -> (p: String)
    ensures
        p@ == include_path(pattern@, from@, home@, os@),
{
    let written = paths::with_slashes(pattern, os);
    let home = paths::with_slashes(home, os);
    let expanded = if text::same(written.as_str(), "~") {
        home
    } else {
        match text::strip_prefix(written.as_str(), "~/") {
            Some(rest) => paths::join_on(home.as_str(), rest.as_str(), os),
            None => written,
        }
    };
    if paths::is_absolute_on(expanded.as_str(), os) {
        return expanded;
    }
    let from = paths::with_slashes(from, os);
    paths::join_on(paths::parent_of_on(from.as_str(), os).as_str(), expanded.as_str(), os)
}

// ---------------------------------------------------------------------------
// The walk through the includes
// ---------------------------------------------------------------------------

/// A file that is being read: where it is, and what of it is left.
pub struct OpenFile {
    pub path: String,
    /// The path that the file has without links and detours.
    pub canonical: String,
    pub left: Vec<SshItem>,
}

/// An [`OpenFile`] with its texts as sequences.
#[verifier::ext_equal]
pub struct OpenFileView {
    pub path: Seq<char>,
    pub canonical: Seq<char>,
    pub left: Seq<ItemView>,
}

impl View for OpenFile {
    type V = OpenFileView;

    open spec fn view(&self) -> OpenFileView {
        OpenFileView {
            path: self.path@,
            canonical: self.canonical@,
            left: item_views(self.left@),
        }
    }
}

/// The aliases of a configuration and of the files that it includes, as far as they were
/// read.
pub struct AliasWalk {
    aliases: Vec<String>,
    open: Vec<OpenFile>,
}

/// What an [`AliasWalk`] has found, and the files that it is in.
#[verifier::ext_equal]
pub struct WalkView {
    pub aliases: Seq<Seq<char>>,
    pub open: Seq<OpenFileView>,
}

/// What a walk asks for next.
#[derive(Clone, Debug, PartialEq, Eq)]
pub enum WalkStep {
    /// Nothing: take the next step.
    Go,
    /// The files that this path pattern stands for.
    Expand(String),
    /// This file.
    Open(String),
    /// Nothing more.
    Done,
}

/// A [`WalkStep`] with its text as a sequence.
pub enum StepView {
    Go,
    Expand(Seq<char>),
    Open(Seq<char>),
    Done,
}

impl View for WalkStep {
    type V = StepView;

    open spec fn view(&self) -> StepView {
        match self {
            WalkStep::Go => StepView::Go,
            WalkStep::Expand(s) => StepView::Expand(s@),
            WalkStep::Open(s) => StepView::Open(s@),
            WalkStep::Done => StepView::Done,
        }
    }
}

/// The views of the open files.
pub open spec fn open_views(v: Seq<OpenFile>) -> Seq<OpenFileView> {
    v.map_values(|f: OpenFile| f@)
}

/// One more alias, unless it is known.
pub open spec fn with_alias(aliases: Seq<Seq<char>>, a: Seq<char>) -> Seq<Seq<char>> {
    if aliases.contains(a) {
        aliases
    } else {
        aliases.push(a)
    }
}

/// The walk once the innermost file has taken its next item. A file of which nothing is
/// left is closed.
pub open spec fn stepped(w: WalkView) -> WalkView {
    if w.open.len() == 0 {
        w
    } else {
        let f = w.open.last();
        if f.left.len() == 0 {
            WalkView { open: w.open.drop_last(), ..w }
        } else {
            WalkView {
                aliases: match f.left[0] {
                    ItemView::Alias(a) => with_alias(w.aliases, a),
                    _ => w.aliases,
                },
                open: w.open.drop_last().push(OpenFileView { left: f.left.drop_first(), ..f }),
            }
        }
    }
}

/// What the walk asks for.
pub open spec fn step_asks(w: WalkView, home: Seq<char>, os: Seq<char>) -> StepView {
    if w.open.len() == 0 {
        StepView::Done
    } else {
        let f = w.open.last();
        if f.left.len() == 0 {
            StepView::Go
        } else {
            match f.left[0] {
                ItemView::Alias(_) => StepView::Go,
                ItemView::Include(p) => StepView::Expand(include_path(p, f.path, home, os)),
                ItemView::File(p) => StepView::Open(p),
            }
        }
    }
}

/// Whether a file is being read.
pub open spec fn is_open(w: WalkView, canonical: Seq<char>) -> bool {
    exists|i: int| 0 <= i < w.open.len() && (#[trigger] w.open[i]).canonical == canonical
}

/// The walk once a file was opened: it is read next, unless it is one of those that are
/// being read, which include themselves.
pub open spec fn opened(w: WalkView, path: Seq<char>, canonical: Seq<char>, content: Seq<char>) -> WalkView {
    if is_open(w, canonical) {
        w
    } else {
        WalkView {
            open: w.open.push(
                OpenFileView { path, canonical, left: items_of(logical_of(content)) },
            ),
            ..w
        }
    }
}

/// The walk once the files of an include are known: they are read next, in order.
pub open spec fn expanded(w: WalkView, files: Seq<Seq<char>>) -> WalkView {
    if w.open.len() == 0 {
        w
    } else {
        let f = w.open.last();
        WalkView {
            open: w.open.drop_last().push(
                OpenFileView {
                    left: files.map_values(|p: Seq<char>| ItemView::File(p)) + f.left,
                    ..f
                },
            ),
            ..w
        }
    }
}

impl View for AliasWalk {
    type V = WalkView;

    closed spec fn view(&self) -> WalkView {
        WalkView { aliases: text::texts(self.aliases@), open: open_views(self.open@) }
    }
}

impl AliasWalk {
    /// A walk that is in no file.
    pub fn new() -> (w: AliasWalk)
        ensures
            w@ == (WalkView { aliases: Seq::empty(), open: Seq::empty() }),
    {
        let w = AliasWalk { aliases: Vec::new(), open: Vec::new() };
        proof {
            assert(w@ =~= (WalkView { aliases: Seq::empty(), open: Seq::empty() }));
        }
        w
    }

    /// Takes the next item of the innermost file, and says what it asks for. `home` is
    /// the home directory that ssh knows, and `os` the platform.
    pub fn step(&mut self, home: &str, os: &str) -> (s: WalkStep)
        ensures
            final(self)@ == stepped(old(self)@),
            s@ == step_asks(old(self)@, home@, os@),
    {
        let ghost was = self@;
        match self.open.pop() {
            None => WalkStep::Done,
            Some(file) => {
                let ghost outer = open_views(self.open@);
                proof {
                    assert(was.open.drop_last() =~= outer);
                    assert(was.open.last() == file@);
                    assert(file@.left.len() == file.left@.len());
                }
                if file.left.len() == 0 {
                    proof {
                        assert(self@ =~= stepped(was));
                    }
                    return WalkStep::Go;
                }
                let mut left = file.left;
                let item = left.remove(0);
                proof {
                    assert(item@ == file@.left[0]);
                    assert(item_views(left@) =~= file@.left.drop_first());
                }
                let asks = match item {
                    SshItem::Alias(a) => {
                        if !text::has_text(&self.aliases, a.as_str()) {
                            let ghost before = self.aliases@;
                            self.aliases.push(a);
                            proof {
                                text::texts_push(before, a);
                            }
                        }
                        WalkStep::Go
                    },
                    SshItem::Include(p) => WalkStep::Expand(
                        expand_include(p.as_str(), file.path.as_str(), home, os),
                    ),
                    SshItem::File(p) => WalkStep::Open(p),
                };
                let ghost rest = self.open@;
                let kept = OpenFile { path: file.path, canonical: file.canonical, left };
                self.open.push(kept);
                proof {
                    assert(open_views(self.open@) =~= open_views(rest).push(kept@));
                    assert(self@ =~= stepped(was));
                }
                asks
            },
        }
    }

    /// Takes in a file that was asked for. One that could not be read holds nothing.
    pub fn opened(&mut self, path: &str, canonical: &str, content: Option<&str>)
        ensures
            final(self)@ == match content {
                Some(c) => opened(old(self)@, path@, canonical@, c@),
                None => old(self)@,
            },
    {
        if let Some(c) = content {
            let mut i: usize = 0;
            while i < self.open.len()
                invariant
                    i <= self.open@.len(),
                    self@ == old(self)@,
                    forall|j: int|
                        0 <= j < i ==> (#[trigger] self@.open[j]).canonical != canonical@,
                decreases self.open.len() - i,
            {
                proof {
                    assert(self@.open[i as int] == self.open@[i as int]@);
                }
                if text::same(self.open[i].canonical.as_str(), canonical) {
                    return ;
                }
                i += 1;
            }
            let ghost before = self.open@;
            let file = OpenFile {
                path: path.to_owned(),
                canonical: canonical.to_owned(),
                left: ssh_items(c),
            };
            self.open.push(file);
            proof {
                assert(open_views(self.open@) =~= open_views(before).push(file@));
                assert(self@ =~= opened(old(self)@, path@, canonical@, c@));
            }
        }
    }

    /// Takes in the files that an include stands for.
    pub fn expanded(&mut self, files: &Vec<String>)
        ensures
            final(self)@ == expanded(old(self)@, text::texts(files@)),
    {
        let ghost was = self@;
        match self.open.pop() {
            None => {},
            Some(file) => {
                let ghost outer = self.open@;
                proof {
                    assert(was.open.drop_last() =~= open_views(outer));
                    assert(was.open.last() == file@);
                }
                let mut left: Vec<SshItem> = Vec::new();
                let mut i: usize = 0;
                while i < files.len()
                    invariant
                        i <= files@.len(),
                        left@.len() == i,
                        forall|j: int|
                            0 <= j < i ==> (#[trigger] left@[j])@ == ItemView::File(files@[j]@),
                    decreases files.len() - i,
                {
                    left.push(SshItem::File(files[i].clone()));
                    i += 1;
                }
                let mut rest = file.left;
                let ghost first = left@;
                left.append(&mut rest);
                let kept = OpenFile { path: file.path, canonical: file.canonical, left };
                self.open.push(kept);
                proof {
                    let names = text::texts(files@).map_values(|p: Seq<char>| ItemView::File(p));
                    assert(item_views(first) =~= names);
                    assert(item_views(left@) =~= names + file@.left);
                    assert(open_views(self.open@) =~= open_views(outer).push(kept@));
                    assert(self@ =~= expanded(was, text::texts(files@)));
                }
            },
        }
    }

    /// The aliases that were found, each once, in the order in which they came.
    pub fn aliases(&self) -> (v: &Vec<String>)
        ensures
            text::texts(v@) == self@.aliases,
    {
        &self.aliases
    }
}

// ---------------------------------------------------------------------------
// Stanzas
// ---------------------------------------------------------------------------

/// Whether a line begins a stanza.
pub open spec fn is_header(line: Seq<char>) -> bool {
    let w = text::words(line);
    w.len() > 0 && (same_word(w[0], "Host"@) || same_word(w[0], "Match"@))
}

/// Whether a header names an alias.
pub open spec fn header_names(line: Seq<char>, alias: Seq<char>) -> bool {
    text::words(line).len() > 0 && text::words(line).skip(1).contains(alias)
}

/// The lines of the stanzas that name an alias, behind `out`; `inside` tells whether the
/// lines begin in one. An empty line stands between two stanzas.
pub open spec fn stanza_lines(
    lines: Seq<Seq<char>>,
    alias: Seq<char>,
    inside: bool,
    out: Seq<Seq<char>>,
) -> Seq<Seq<char>>
    decreases lines.len(),
{
    if lines.len() == 0 {
        out
    } else {
        let line = lines[0];
        let rest = lines.drop_first();
        if is_header(line) && header_names(line, alias) {
            let parted = if out.len() == 0 {
                out
            } else {
                out.push(Seq::empty())
            };
            stanza_lines(rest, alias, true, parted.push(text::trim_right(line)))
        } else if is_header(line) || !inside {
            stanza_lines(rest, alias, false, out)
        } else {
            stanza_lines(rest, alias, true, out.push(text::trim_right(line)))
        }
    }
}

/// Whether a line begins a stanza, and whether it names `alias`.
fn read_header(line: &str, alias: &str) -> (r: (bool, bool))
    ensures
        r.0 == is_header(line@),
        r.1 == header_names(line@, alias@),
{
    let w = text::split_whitespace(line);
    let ghost all = text::texts(w@);
    proof {
        assert(all.len() == w@.len());
    }
    if w.len() == 0 {
        return (false, false);
    }
    proof {
        assert(all[0] == w@[0]@);
    }
    let header = eq_ignore_ascii_case(w[0].as_str(), "Host") || eq_ignore_ascii_case(
        w[0].as_str(),
        "Match",
    );
    let mut i: usize = 1;
    while i < w.len()
        invariant
            1 <= i <= w@.len(),
            all == text::texts(w@),
            all == text::words(line@),
            header == is_header(line@),
            forall|j: int| 1 <= j < i ==> #[trigger] all[j] != alias@,
        decreases w.len() - i,
    {
        proof {
            assert(all[i as int] == w@[i as int]@);
        }
        if text::same(w[i].as_str(), alias) {
            proof {
                assert(all.skip(1)[i - 1] == alias@);
            }
            return (header, true);
        }
        i += 1;
    }
    proof {
        if all.skip(1).contains(alias@) {
            let j = choose|j: int| 0 <= j < all.skip(1).len() && all.skip(1)[j] == alias@;
            assert(all[j + 1] == alias@);
        }
    }
    (header, false)
}

/// The stanzas of a configuration that name `alias`, as they are written. What a `Match`
/// would make of them is not worked out. Empty where there is none.
pub fn host_stanza(config_text: &str, alias: &str) -> (s: String)
    ensures
        s@ == text::joined(
            stanza_lines(logical_of(config_text@), alias@, false, Seq::empty()),
            "\n"@,
        ),
{
    let lines = logical_lines(config_text);
    let ghost all = text::texts(lines@);
    let mut out: Vec<String> = Vec::new();
    let mut inside = false;
    let mut i: usize = 0;
    proof {
        assert(all.skip(0) =~= all);
        assert(text::texts(out@) =~= Seq::empty());
    }
    while i < lines.len()
        invariant
            i <= lines@.len(),
            all == text::texts(lines@),
            stanza_lines(all, alias@, false, Seq::empty()) == stanza_lines(
                all.skip(i as int),
                alias@,
                inside,
                text::texts(out@),
            ),
        decreases lines.len() - i,
    {
        let line = lines[i].as_str();
        let ghost rest = all.skip(i as int);
        proof {
            assert(rest[0] == line@);
            assert(rest.drop_first() =~= all.skip(i + 1));
            assert(text::texts(out@).len() == out@.len());
        }
        let (header, names) = read_header(line, alias);
        if header && names {
            if out.len() > 0 {
                let ghost before = out@;
                out.push(String::new());
                proof {
                    text::texts_push(before, out@.last());
                    assert(out@.last()@ =~= Seq::empty());
                }
            }
            let ghost before = out@;
            out.push(text::trim_end(line));
            proof {
                text::texts_push(before, out@.last());
            }
            inside = true;
        } else if header {
            inside = false;
        } else if inside {
            let ghost before = out@;
            out.push(text::trim_end(line));
            proof {
                text::texts_push(before, out@.last());
            }
        }
        i += 1;
    }
    text::join(&out, "\n")
}

// ---------------------------------------------------------------------------
// Laws
// ---------------------------------------------------------------------------

/// No alias is found twice, whatever the files hold.
pub proof fn aliases_stay_distinct(w: WalkView)
    requires
        w.aliases.no_duplicates(),
    ensures
        stepped(w).aliases.no_duplicates(),
{
    if w.open.len() > 0 && w.open.last().left.len() > 0 {
        if let ItemView::Alias(a) = w.open.last().left[0] {
            with_alias_is_distinct(w.aliases, a);
        }
    }
}

/// A file that includes itself, through whatever others, is not entered again: the walk
/// is never in the same file twice.
pub proof fn cycles_are_broken(
    w: WalkView,
    path: Seq<char>,
    canonical: Seq<char>,
    content: Seq<char>,
)
    requires
        forall|i: int, j: int|
            0 <= i < j < w.open.len() ==> (#[trigger] w.open[i]).canonical != (
            #[trigger] w.open[j]).canonical,
    ensures
        is_open(w, canonical) ==> opened(w, path, canonical, content) == w,
        ({
            let o = opened(w, path, canonical, content).open;
            forall|i: int, j: int|
                0 <= i < j < o.len() ==> (#[trigger] o[i]).canonical != (#[trigger] o[j]).canonical
        }),
{
    let o = opened(w, path, canonical, content).open;
    assert forall|i: int, j: int| 0 <= i < j < o.len() implies (#[trigger] o[i]).canonical != (
    #[trigger] o[j]).canonical by {
        if j < w.open.len() {
            assert(w.open[i].canonical != w.open[j].canonical);
        } else if i < w.open.len() && j == w.open.len() {
            assert(w.open[i] == o[i]);
        }
    }
}

/// An include that goes up is sought in the directory above that of the file that
/// includes it: `../x` stands for the file `x` there, and for nothing else.
pub proof fn include_goes_up(
    x: Seq<char>,
    from: Seq<char>,
    home: Seq<char>,
    os: Seq<char>,
    at: Seq<char>,
    t: Tree,
)
    requires
        is_entry_name(x),
        paths::slashed(x, os) == x,
        ({
            let dir = paths::parent_on(paths::slashed(from, os), os);
            let (base, names) = pattern_parts(dir, os);
            &&& dir.len() > 0 && dir.last() != '/'
            &&& names.len() > 0
            &&& walked(t, seq![base], names) == seq![at]
        }),
        t.dirs.contains(paths::below(at, ".."@)),
        t.files.contains(beside(at, x)) == t.files.contains(
            paths::below(paths::parent_on(at, os), x),
        ),
    ensures
        glob_owed(glob_start(include_path("../"@ + x, from, home, os), os), t)
            == if t.files.contains(paths::below(paths::parent_on(at, os), x)) {
            seq![beside(at, x)]
        } else {
            Seq::empty()
        },
{
    reveal_strlit("~");
    reveal_strlit("~/");
    reveal_strlit("/");
    reveal_strlit("../");
    reveal_strlit("/../");
    let dir = paths::parent_on(paths::slashed(from, os), os);
    let pattern = "../"@ + x;
    parent_part_leads_up(dir, x, os, at, t);
    assert(paths::slashed(pattern, os) =~= pattern) by {
        assert forall|i: int| 0 <= i < pattern.len() implies #[trigger] paths::slashed(
            pattern,
            os,
        )[i] == pattern[i] by {
            if i >= 3 {
                assert(pattern[i] == x[i - 3]);
                assert(paths::slashed(x, os)[i - 3] == x[i - 3]);
            }
        }
    }
    assert(pattern[0] == '.');
    if text::begins(pattern, "~/"@) {
        assert(pattern.take(2)[0] == '~');
    }
    assert(pattern != "~"@) by {
        assert("~"@[0] == '~');
    }
    assert(dir + "/"@ + pattern =~= dir + "/../"@ + x);
}

// ---------------------------------------------------------------------------
// Laws of a whole walk
// ---------------------------------------------------------------------------

/// The files that a walk can meet: for each path that can be read the path without links
/// and detours and the content, for each path pattern the files that it stands for, and
/// all the paths without links and detours that there are; with the home directory and
/// the platform.
pub struct ConfigFiles {
    pub home: Seq<char>,
    pub os: Seq<char>,
    pub files: Map<Seq<char>, (Seq<char>, Seq<char>)>,
    pub patterns: Map<Seq<char>, Seq<Seq<char>>>,
    pub canonicals: Set<Seq<char>>,
}

impl ConfigFiles {
    /// Whether there are finitely many files, each under one of the known names.
    pub open spec fn wf(self) -> bool {
        &&& self.canonicals.finite()
        &&& forall|p: Seq<char>| #[trigger]
            self.files.dom().contains(p) ==> self.canonicals.contains(self.files[p].0)
    }

    /// The files that a path pattern stands for.
    pub open spec fn expand(self, pattern: Seq<char>) -> Seq<Seq<char>> {
        if self.patterns.dom().contains(pattern) {
            self.patterns[pattern]
        } else {
            Seq::empty()
        }
    }

    /// How many files are not being read.
    pub open spec fn free(self, stack: Set<Seq<char>>) -> nat {
        self.canonicals.difference(stack).len()
    }

    /// Whether a path leads to a file that is not being read.
    pub open spec fn enters(self, path: Seq<char>, stack: Set<Seq<char>>) -> bool {
        self.files.dom().contains(path) && self.wf() && !stack.contains(self.files[path].0)
    }
}

/// A file that is entered is free no more.
pub proof fn entering_takes_one(fs: ConfigFiles, path: Seq<char>, stack: Set<Seq<char>>)
    requires
        fs.enters(path, stack),
    ensures
        fs.free(stack.insert(fs.files[path].0)) < fs.free(stack),
{
    let c = fs.files[path].0;
    let free = fs.canonicals.difference(stack);
    assert(free.contains(c));
    assert(fs.canonicals.difference(stack.insert(c)) =~= free.remove(c));
    vstd::set_lib::lemma_len_difference(fs.canonicals, stack);
}

/// The aliases once these items of the file at `path` were read, each alias where it
/// stands, and the files of an include in its place.
pub open spec fn items_read(
    fs: ConfigFiles,
    path: Seq<char>,
    items: Seq<ItemView>,
    stack: Set<Seq<char>>,
    aliases: Seq<Seq<char>>,
) -> Seq<Seq<char>>
    decreases fs.free(stack), 1int, items.len(),
{
    if items.len() == 0 {
        aliases
    } else {
        let now = match items[0] {
            ItemView::Alias(a) => with_alias(aliases, a),
            ItemView::Include(p) => files_read(
                fs,
                fs.expand(include_path(p, path, fs.home, fs.os)),
                stack,
                aliases,
            ),
            ItemView::File(p) => files_read(fs, seq![p], stack, aliases),
        };
        items_read(fs, path, items.drop_first(), stack, now)
    }
}

/// The aliases once these files were read. One that is being read, and so includes
/// itself, is passed over.
pub open spec fn files_read(
    fs: ConfigFiles,
    files: Seq<Seq<char>>,
    stack: Set<Seq<char>>,
    aliases: Seq<Seq<char>>,
) -> Seq<Seq<char>>
    decreases fs.free(stack), 0int, files.len(),
{
    if files.len() == 0 {
        aliases
    } else {
        let now = if fs.enters(files[0], stack) {
            proof {
                entering_takes_one(fs, files[0], stack);
            }
            let (canonical, content) = fs.files[files[0]];
            items_read(
                fs,
                files[0],
                items_of(logical_of(content)),
                stack.insert(canonical),
                aliases,
            )
        } else {
            aliases
        };
        files_read(fs, files.drop_first(), stack, now)
    }
}

/// The files that are being read.
pub open spec fn being_read(open: Seq<OpenFileView>) -> Set<Seq<char>>
    decreases open.len(),
{
    if open.len() == 0 {
        Set::empty()
    } else {
        being_read(open.drop_last()).insert(open.last().canonical)
    }
}

/// The aliases that a walk has found, and those that it will still find, in the order in
/// which it comes to them.
pub open spec fn aliases_owed(w: WalkView, fs: ConfigFiles) -> Seq<Seq<char>>
    decreases w.open.len(),
{
    if w.open.len() == 0 {
        w.aliases
    } else {
        let f = w.open.last();
        aliases_owed(
            WalkView {
                aliases: items_read(fs, f.path, f.left, being_read(w.open), w.aliases),
                open: w.open.drop_last(),
            },
            fs,
        )
    }
}

/// The walk once it has taken a step and was answered out of these files.
pub open spec fn walk_answered(w: WalkView, fs: ConfigFiles) -> WalkView {
    match step_asks(w, fs.home, fs.os) {
        StepView::Expand(p) => expanded(stepped(w), fs.expand(p)),
        StepView::Open(p) => if fs.files.dom().contains(p) {
            opened(stepped(w), p, fs.files[p].0, fs.files[p].1)
        } else {
            stepped(w)
        },
        _ => stepped(w),
    }
}

/// The files that are being read are those that a walk is in.
proof fn being_read_is_open(w: WalkView, canonical: Seq<char>)
    ensures
        being_read(w.open).contains(canonical) == is_open(w, canonical),
    decreases w.open.len(),
{
    if w.open.len() > 0 {
        let less = WalkView { open: w.open.drop_last(), ..w };
        being_read_is_open(less, canonical);
        if is_open(less, canonical) {
            let i = choose|i: int|
                0 <= i < less.open.len() && (#[trigger] less.open[i]).canonical == canonical;
            assert(w.open[i].canonical == canonical);
        }
        if is_open(w, canonical) && !is_open(less, canonical) {
            let i = choose|i: int|
                0 <= i < w.open.len() && (#[trigger] w.open[i]).canonical == canonical;
            assert(i < less.open.len() ==> less.open[i].canonical == canonical);
        }
        if w.open.last().canonical == canonical {
            assert(w.open[w.open.len() - 1].canonical == canonical);
        }
    }
}

/// Files in front of items are read first.
proof fn files_in_front(
    fs: ConfigFiles,
    path: Seq<char>,
    files: Seq<Seq<char>>,
    items: Seq<ItemView>,
    stack: Set<Seq<char>>,
    aliases: Seq<Seq<char>>,
)
    ensures
        items_read(
            fs,
            path,
            files.map_values(|p: Seq<char>| ItemView::File(p)) + items,
            stack,
            aliases,
        ) == items_read(fs, path, items, stack, files_read(fs, files, stack, aliases)),
    decreases files.len(),
{
    let front = files.map_values(|p: Seq<char>| ItemView::File(p));
    if files.len() == 0 {
        assert(front + items =~= items);
    } else {
        let rest = files.drop_first();
        let one = seq![files[0]];
        assert((front + items).drop_first() =~= rest.map_values(
            |p: Seq<char>| ItemView::File(p),
        ) + items);
        let now = files_read(fs, one, stack, aliases);
        files_in_front(fs, path, rest, items, stack, now);
        assert(one.drop_first() =~= Seq::empty());
        reveal_with_fuel(files_read, 2);
        assert((front + items)[0] == ItemView::File(files[0]));
    }
}

/// A walk that is answered out of files loses no alias and makes none up: what it has
/// found and will find stays the same, in the same order.
pub proof fn walk_keeps_its_aliases(w: WalkView, fs: ConfigFiles)
    requires
        fs.wf(),
    ensures
        aliases_owed(walk_answered(w, fs), fs) == aliases_owed(w, fs),
{
    if w.open.len() > 0 {
        let f = w.open.last();
        let outer = w.open.drop_last();
        let stack = being_read(w.open);
        let s = stepped(w);
        if f.left.len() == 0 {
            assert(WalkView { aliases: w.aliases, open: outer } =~= s);
        } else {
            let kept = OpenFileView { left: f.left.drop_first(), ..f };
            assert(s.open.drop_last() =~= outer);
            assert(being_read(s.open) =~= stack);
            match f.left[0] {
                ItemView::Alias(_) => {
                    assert(aliases_owed(s, fs) == aliases_owed(w, fs));
                },
                ItemView::Include(p) => {
                    let files = fs.expand(include_path(p, f.path, fs.home, fs.os));
                    let e = expanded(s, files);
                    assert(e.open.drop_last() =~= outer);
                    assert(being_read(e.open) =~= stack);
                    files_in_front(fs, f.path, files, kept.left, stack, w.aliases);
                    assert(aliases_owed(e, fs) == aliases_owed(w, fs));
                },
                ItemView::File(p) => {
                    let one = seq![p];
                    assert(one.drop_first() =~= Seq::empty());
                    reveal_with_fuel(files_read, 2);
                    if fs.files.dom().contains(p) {
                        let (canonical, content) = fs.files[p];
                        being_read_is_open(s, canonical);
                        let o = opened(s, p, canonical, content);
                        if !is_open(s, canonical) {
                            assert(o.open.drop_last() =~= s.open);
                            assert(fs.enters(p, stack));
                            let now = items_read(
                                fs,
                                p,
                                items_of(logical_of(content)),
                                stack.insert(canonical),
                                w.aliases,
                            );
                            assert(files_read(fs, one, stack, w.aliases) == now);
                            let inner = WalkView { aliases: now, open: s.open };
                            assert(aliases_owed(o, fs) == aliases_owed(inner, fs));
                            assert(inner.open.drop_last() =~= outer);
                            assert(aliases_owed(inner, fs) == aliases_owed(w, fs));
                        } else {
                            assert(!fs.enters(p, stack));
                        }
                    }
                    if !fs.enters(p, stack) {
                        assert(files_read(fs, one.drop_first(), stack, w.aliases)
                            == w.aliases);
                        assert(files_read(fs, one, stack, w.aliases) == w.aliases);
                        assert(aliases_owed(s, fs) == aliases_owed(w, fs));
                    }
                },
            }
        }
    }
}

/// A walk that asks for nothing more has found all that it owed.
pub proof fn finished_walk_has_its_aliases(w: WalkView, fs: ConfigFiles)
    requires
        step_asks(w, fs.home, fs.os) is Done,
    ensures
        aliases_owed(w, fs) == w.aliases,
{
}

/// The walk after `n` steps that were answered out of these files.
pub open spec fn walk_after(w: WalkView, fs: ConfigFiles, n: nat) -> WalkView
    decreases n,
{
    if n == 0 {
        w
    } else {
        walk_after(walk_answered(w, fs), fs, (n - 1) as nat)
    }
}

/// Steps behind steps.
proof fn walk_after_sum(w: WalkView, fs: ConfigFiles, a: nat, b: nat)
    ensures
        walk_after(w, fs, a + b) == walk_after(walk_after(w, fs, a), fs, b),
    decreases a,
{
    if a > 0 {
        walk_after_sum(walk_answered(w, fs), fs, (a - 1) as nat, b);
    }
}

/// The innermost file is read to its end, and closed.
proof fn file_is_finished(w: WalkView, fs: ConfigFiles) -> (n: nat)
    requires
        fs.wf(),
        w.open.len() > 0,
    ensures
        ({
            let f = w.open.last();
            walk_after(w, fs, n) == (WalkView {
                aliases: items_read(fs, f.path, f.left, being_read(w.open), w.aliases),
                open: w.open.drop_last(),
            })
        }),
    decreases fs.free(being_read(w.open)), 1int, w.open.last().left.len(),
{
    let f = w.open.last();
    let outer = w.open.drop_last();
    let stack = being_read(w.open);
    if f.left.len() == 0 {
        reveal_with_fuel(walk_after, 2);
        assert(walk_answered(w, fs) =~= (WalkView { aliases: w.aliases, open: outer }));
        1
    } else {
        let rest = f.left.drop_first();
        let kept = OpenFileView { left: rest, ..f };
        let s = stepped(w);
        assert(s.open.drop_last() =~= outer);
        assert(being_read(s.open) =~= stack);
        match f.left[0] {
            ItemView::Alias(a) => {
                let m = file_is_finished(s, fs);
                assert(walk_after(w, fs, m + 1) == walk_after(s, fs, m));
                m + 1
            },
            ItemView::Include(p) => {
                let files = fs.expand(include_path(p, f.path, fs.home, fs.os));
                let e = expanded(s, files);
                assert(e.open.drop_last() =~= outer);
                assert(being_read(e.open) =~= stack);
                let a = files_are_finished(e, fs, files, rest);
                let v = walk_after(e, fs, a);
                assert(v.open.drop_last() =~= outer);
                assert(being_read(v.open) =~= stack);
                let b = file_is_finished(v, fs);
                walk_after_sum(e, fs, a, b);
                assert(walk_after(w, fs, a + b + 1) == walk_after(e, fs, a + b));
                a + b + 1
            },
            ItemView::File(p) => {
                let one = seq![p];
                assert(one.map_values(|p: Seq<char>| ItemView::File(p)) + rest =~= f.left);
                let a = files_are_finished(w, fs, one, rest);
                let v = walk_after(w, fs, a);
                assert(v.open.drop_last() =~= outer);
                assert(being_read(v.open) =~= stack);
                let b = file_is_finished(v, fs);
                walk_after_sum(w, fs, a, b);
                a + b
            },
        }
    }
}

/// Files in front of the items of the innermost file are read, and the items are left.
proof fn files_are_finished(
    w: WalkView,
    fs: ConfigFiles,
    files: Seq<Seq<char>>,
    rest: Seq<ItemView>,
) -> (n: nat)
    requires
        fs.wf(),
        w.open.len() > 0,
        w.open.last().left == files.map_values(|p: Seq<char>| ItemView::File(p)) + rest,
    ensures
        walk_after(w, fs, n) == (WalkView {
            aliases: files_read(fs, files, being_read(w.open), w.aliases),
            open: w.open.drop_last().push(OpenFileView { left: rest, ..w.open.last() }),
        }),
    decreases fs.free(being_read(w.open)), 0int, files.len(),
{
    let f = w.open.last();
    let outer = w.open.drop_last();
    let stack = being_read(w.open);
    let front = files.map_values(|p: Seq<char>| ItemView::File(p));
    if files.len() == 0 {
        assert(front + rest =~= rest);
        assert(outer.push(f) =~= w.open);
        0
    } else {
        let p = files[0];
        let less = files.drop_first();
        assert(f.left[0] == ItemView::File(p));
        assert(f.left.drop_first() =~= less.map_values(|p: Seq<char>| ItemView::File(p)) + rest);
        let s = stepped(w);
        assert(s.open.drop_last() =~= outer);
        assert(being_read(s.open) =~= stack);
        if fs.files.dom().contains(p) {
            being_read_is_open(s, fs.files[p].0);
        }
        if fs.enters(p, stack) {
            entering_takes_one(fs, p, stack);
            let (canonical, content) = fs.files[p];
            let o = opened(s, p, canonical, content);
            assert(o.open.drop_last() =~= s.open);
            assert(being_read(o.open) =~= stack.insert(canonical));
            let a = file_is_finished(o, fs);
            let v = walk_after(o, fs, a);
            assert(v.open =~= s.open);
            let b = files_are_finished(v, fs, less, rest);
            walk_after_sum(o, fs, a, b);
            assert(walk_answered(w, fs) == o);
            assert(walk_after(w, fs, a + b + 1) == walk_after(o, fs, a + b));
            a + b + 1
        } else {
            assert(walk_answered(w, fs) == s);
            let b = files_are_finished(s, fs, less, rest);
            assert(walk_after(w, fs, b + 1) == walk_after(s, fs, b));
            b + 1
        }
    }
}

/// A walk comes to its end, however the files include each other, and has then found
/// what it owed.
pub proof fn walk_ends(w: WalkView, fs: ConfigFiles)
    requires
        fs.wf(),
    ensures
        exists|n: nat|
            {
                &&& step_asks(#[trigger] walk_after(w, fs, n), fs.home, fs.os) is Done
                &&& walk_after(w, fs, n).aliases == aliases_owed(w, fs)
            },
    decreases w.open.len(),
{
    if w.open.len() == 0 {
        assert(walk_after(w, fs, 0) == w);
    } else {
        let a = file_is_finished(w, fs);
        let v = walk_after(w, fs, a);
        walk_ends(v, fs);
        let b = choose|b: nat|
            {
                &&& step_asks(#[trigger] walk_after(v, fs, b), fs.home, fs.os) is Done
                &&& walk_after(v, fs, b).aliases == aliases_owed(v, fs)
            };
        walk_after_sum(w, fs, a, b);
        assert(step_asks(walk_after(w, fs, a + b), fs.home, fs.os) is Done);
    }
}

/// A walk that has opened one file owes the aliases of that file and of those that it
/// includes.
pub proof fn fresh_walk_owes_the_file(path: Seq<char>, fs: ConfigFiles)
    requires
        fs.wf(),
        fs.files.dom().contains(path),
    ensures
        ({
            let none = WalkView { aliases: Seq::empty(), open: Seq::empty() };
            aliases_owed(opened(none, path, fs.files[path].0, fs.files[path].1), fs)
                == files_read(fs, seq![path], Set::empty(), Seq::empty())
        }),
{
    let none = WalkView { aliases: Seq::empty(), open: Seq::empty() };
    let (canonical, content) = fs.files[path];
    let o = opened(none, path, canonical, content);
    assert(!is_open(none, canonical));
    assert(o.open.drop_last() =~= Seq::empty());
    reveal_with_fuel(being_read, 2);
    assert(being_read(o.open) =~= Set::empty().insert(canonical));
    reveal_with_fuel(files_read, 2);
    reveal_with_fuel(aliases_owed, 2);
    assert(seq![path].drop_first() =~= Seq::empty());
    assert(fs.enters(path, Set::empty()));
}

/// One more alias leaves them distinct.
proof fn with_alias_is_distinct(aliases: Seq<Seq<char>>, a: Seq<char>)
    requires
        aliases.no_duplicates(),
    ensures
        with_alias(aliases, a).no_duplicates(),
{
    if !aliases.contains(a) {
        let all = aliases.push(a);
        assert forall|i: int, j: int| 0 <= i < all.len() && 0 <= j < all.len() && i != j implies all[i]
            != all[j] by {
            if i == aliases.len() {
                assert(aliases.contains(aliases[j]));
            } else if j == aliases.len() {
                assert(aliases.contains(aliases[i]));
            }
        }
    }
}

/// The items of a file, and of those that it includes, give each alias once, behind those
/// that were known.
pub proof fn items_give_each_alias_once(
    fs: ConfigFiles,
    path: Seq<char>,
    items: Seq<ItemView>,
    stack: Set<Seq<char>>,
    aliases: Seq<Seq<char>>,
)
    requires
        aliases.no_duplicates(),
    ensures
        items_read(fs, path, items, stack, aliases).no_duplicates(),
        aliases.is_prefix_of(items_read(fs, path, items, stack, aliases)),
    decreases fs.free(stack), 1int, items.len(),
{
    if items.len() > 0 {
        let now = match items[0] {
            ItemView::Alias(a) => {
                with_alias_is_distinct(aliases, a);
                with_alias(aliases, a)
            },
            ItemView::Include(p) => {
                let files = fs.expand(include_path(p, path, fs.home, fs.os));
                files_give_each_alias_once(fs, files, stack, aliases);
                files_read(fs, files, stack, aliases)
            },
            ItemView::File(p) => {
                files_give_each_alias_once(fs, seq![p], stack, aliases);
                files_read(fs, seq![p], stack, aliases)
            },
        };
        items_give_each_alias_once(fs, path, items.drop_first(), stack, now);
    }
}

/// Files give each alias once, behind those that were known: the one that is seen first
/// stays where it is.
pub proof fn files_give_each_alias_once(
    fs: ConfigFiles,
    files: Seq<Seq<char>>,
    stack: Set<Seq<char>>,
    aliases: Seq<Seq<char>>,
)
    requires
        aliases.no_duplicates(),
    ensures
        files_read(fs, files, stack, aliases).no_duplicates(),
        aliases.is_prefix_of(files_read(fs, files, stack, aliases)),
    decreases fs.free(stack), 0int, files.len(),
{
    if files.len() > 0 {
        let now = if fs.enters(files[0], stack) {
            entering_takes_one(fs, files[0], stack);
            let (canonical, content) = fs.files[files[0]];
            let items = items_of(logical_of(content));
            items_give_each_alias_once(
                fs,
                files[0],
                items,
                stack.insert(canonical),
                aliases,
            );
            items_read(fs, files[0], items, stack.insert(canonical), aliases)
        } else {
            aliases
        };
        files_give_each_alias_once(fs, files.drop_first(), stack, now);
    }
}

/// A configuration in which no header names the alias has no stanza of it.
pub proof fn unnamed_alias_has_no_stanza(lines: Seq<Seq<char>>, alias: Seq<char>)
    requires
        forall|i: int|
            0 <= i < lines.len() ==> !(is_header(#[trigger] lines[i]) && header_names(
                lines[i],
                alias,
            )),
    ensures
        stanza_lines(lines, alias, false, Seq::empty()) == Seq::<Seq<char>>::empty(),
    decreases lines.len(),
{
    if lines.len() > 0 {
        let t = lines.drop_first();
        assert forall|i: int| 0 <= i < t.len() implies !(is_header(#[trigger] t[i])
            && header_names(t[i], alias)) by {
            assert(t[i] == lines[i + 1]);
        }
        unnamed_alias_has_no_stanza(t, alias);
        assert(!(is_header(lines[0]) && header_names(lines[0], alias)));
    }
}

// ---------------------------------------------------------------------------
// Laws of what a file declares
// ---------------------------------------------------------------------------

/// The arguments of a directive are taken one by one, in order.
pub proof fn arguments_add_up(a: Seq<Seq<char>>, b: Seq<Seq<char>>, includes: bool)
    ensures
        arguments(a + b, includes) == arguments(a, includes) + arguments(b, includes),
    decreases b.len(),
{
    if b.len() == 0 {
        assert(a + b =~= a);
        assert(arguments(a, includes) + arguments(b, includes) =~= arguments(a, includes));
    } else {
        assert((a + b).drop_last() =~= a + b.drop_last());
        arguments_add_up(a, b.drop_last(), includes);
        assert(arguments(a + b, includes) =~= arguments(a, includes) + arguments(b, includes));
    }
}

/// An argument of `Host` is an alias exactly where it does not begin with `!` and holds
/// none of `*`, `?` and `[`, and one of `Include` is a path pattern, whatever it holds.
pub proof fn one_argument(w: Seq<char>)
    ensures
        arguments(seq![w], true) == seq![ItemView::Include(w)],
        !(w.len() > 0 && w[0] == '!') && !w.contains('*') && !w.contains('?') && !w.contains('[')
            ==> arguments(seq![w], false) == seq![ItemView::Alias(w)],
        (w.len() > 0 && w[0] == '!') || w.contains('*') || w.contains('?') || w.contains('[')
            ==> arguments(seq![w], false) == Seq::<ItemView>::empty(),
{
    reveal_strlit("!");
    reveal_with_fuel(arguments, 2);
    assert(seq![w].drop_last() =~= Seq::empty());
    if w.len() > 0 {
        assert(w.take(1)[0] == w[0]);
        if w[0] == '!' {
            assert(w.take(1) =~= "!"@);
        }
    }
    assert(Seq::<ItemView>::empty().push(ItemView::Alias(w)) =~= seq![ItemView::Alias(w)]);
    assert(Seq::<ItemView>::empty().push(ItemView::Include(w)) =~= seq![ItemView::Include(w)]);
}

/// Whether a word is the keyword `Host`, in whatever case.
pub open spec fn says_host(k: Seq<char>) -> bool {
    &&& k.len() == 4
    &&& k[0] == 'H' || k[0] == 'h'
    &&& k[1] == 'O' || k[1] == 'o'
    &&& k[2] == 'S' || k[2] == 's'
    &&& k[3] == 'T' || k[3] == 't'
}

/// Whether a word is the keyword `Include`, in whatever case.
pub open spec fn says_include(k: Seq<char>) -> bool {
    &&& k.len() == 7
    &&& k[0] == 'I' || k[0] == 'i'
    &&& k[1] == 'N' || k[1] == 'n'
    &&& k[2] == 'C' || k[2] == 'c'
    &&& k[3] == 'L' || k[3] == 'l'
    &&& k[4] == 'U' || k[4] == 'u'
    &&& k[5] == 'D' || k[5] == 'd'
    &&& k[6] == 'E' || k[6] == 'e'
}

/// A keyword is told by its letters, in whatever case.
pub proof fn keywords_are_told_by_letters(k: Seq<char>)
    ensures
        same_word(k, "Host"@) <==> says_host(k),
        same_word(k, "Include"@) <==> says_include(k),
{
    reveal_strlit("Host");
    reveal_strlit("Include");
    let h = "Host"@;
    let n = "Include"@;
    if same_word(k, h) {
        assert(folded(k[0]) == folded(h[0]) && folded(k[1]) == folded(h[1]) && folded(k[2])
            == folded(h[2]) && folded(k[3]) == folded(h[3]));
    }
    if same_word(k, n) {
        assert(folded(k[0]) == folded(n[0]) && folded(k[1]) == folded(n[1]) && folded(k[2])
            == folded(n[2]) && folded(k[3]) == folded(n[3]) && folded(k[4]) == folded(n[4])
            && folded(k[5]) == folded(n[5]) && folded(k[6]) == folded(n[6]));
    }
}

/// Whether a word can be an alias.
pub open spec fn stands_for_itself(w: Seq<char>) -> bool {
    text::is_word(w) && w[0] != '!' && !w.contains('*') && !w.contains('?') && !w.contains('[')
}

/// A line of `Host` and words that stand for themselves declares these words as aliases,
/// all of them, in order, and nothing else.
pub proof fn host_line_declares_its_words(line: Seq<char>, k: Seq<char>, ws: Seq<Seq<char>>)
    requires
        says_host(k),
        text::words(line) == seq![k] + ws,
        forall|i: int| 0 <= i < ws.len() ==> stands_for_itself(#[trigger] ws[i]),
    ensures
        line_items(line).len() == ws.len(),
        forall|i: int|
            0 <= i < ws.len() ==> #[trigger] line_items(line)[i] == ItemView::Alias(ws[i]),
{
    directive_items(line, k, ws);
    keywords_are_told_by_letters(k);
    words_are_aliases(ws);
}

proof fn words_are_aliases(ws: Seq<Seq<char>>)
    requires
        forall|i: int| 0 <= i < ws.len() ==> stands_for_itself(#[trigger] ws[i]),
    ensures
        arguments(ws, false).len() == ws.len(),
        forall|i: int|
            0 <= i < ws.len() ==> #[trigger] arguments(ws, false)[i] == ItemView::Alias(ws[i]),
    decreases ws.len(),
{
    if ws.len() > 0 {
        let v = ws.drop_last();
        assert forall|i: int| 0 <= i < v.len() implies stands_for_itself(#[trigger] v[i]) by {
            assert(v[i] == ws[i]);
        }
        words_are_aliases(v);
        assert(stands_for_itself(ws[ws.len() - 1]));
        one_argument(ws.last());
        arguments_add_up(v, seq![ws.last()], false);
        assert(v + seq![ws.last()] =~= ws);
        assert forall|i: int| 0 <= i < ws.len() implies #[trigger] arguments(ws, false)[i]
            == ItemView::Alias(ws[i]) by {
            if i < v.len() {
                assert(arguments(ws, false)[i] == arguments(v, false)[i]);
            }
        }
    }
}

/// The items of a line by the words in it.
proof fn directive_items(line: Seq<char>, k: Seq<char>, ws: Seq<Seq<char>>)
    requires
        text::words(line) == seq![k] + ws,
        k.len() > 0,
        k[0] != '#',
    ensures
        line_items(line) == if same_word(k, "Include"@) {
            arguments(ws, true)
        } else if same_word(k, "Host"@) {
            arguments(ws, false)
        } else {
            Seq::empty()
        },
{
    reveal_strlit("#");
    let t = text::trimmed(line);
    let all = seq![k] + ws;
    text::words_of_trimmed(line);
    assert(all[0] == k);
    assert(all.skip(1) =~= ws);
    let (front, end) = text::trimming_takes_the_ends(line);
    assert(t.len() > 0);
    assert(t[0] == k[0]) by {
        text::word_len_bounds(t);
        assert(text::words(t)[0] == t.take(text::word_len(t)));
        assert(t.take(text::word_len(t))[0] == t[0]);
    }
    assert(t.take(1)[0] == t[0]);
}

/// `Host` and words behind it, with spaces between them, declare the words as aliases.
pub proof fn host_line_reads_back(k: Seq<char>, ws: Seq<Seq<char>>)
    requires
        says_host(k),
        forall|i: int| 0 <= i < ws.len() ==> stands_for_itself(#[trigger] ws[i]),
    ensures
        ({
            let line = k + " "@ + text::joined(ws, " "@);
            &&& line_items(line).len() == ws.len()
            &&& forall|i: int|
                0 <= i < ws.len() ==> #[trigger] line_items(line)[i] == ItemView::Alias(ws[i])
        }),
{
    reveal_strlit(" ");
    let line = k + " "@ + text::joined(ws, " "@);
    assert(" "@ =~= seq![' ']);
    assert forall|i: int| 0 <= i < ws.len() implies text::is_word(#[trigger] ws[i]) by {
        assert(stands_for_itself(ws[i]));
    }
    text::words_read_back(ws, ' ');
    text::words_of_word(k);
    text::words_add_up(k, ' ', text::joined(ws, " "@));
    host_line_declares_its_words(line, k, ws);
}

/// A line of `Include` names each of the words behind it as a path pattern, in order.
pub proof fn include_line_names_its_words(line: Seq<char>, k: Seq<char>, ws: Seq<Seq<char>>)
    requires
        says_include(k),
        text::words(line) == seq![k] + ws,
    ensures
        line_items(line).len() == ws.len(),
        forall|i: int|
            0 <= i < ws.len() ==> #[trigger] line_items(line)[i] == ItemView::Include(ws[i]),
{
    directive_items(line, k, ws);
    keywords_are_told_by_letters(k);
    words_are_includes(ws);
}

proof fn words_are_includes(ws: Seq<Seq<char>>)
    ensures
        arguments(ws, true).len() == ws.len(),
        forall|i: int|
            0 <= i < ws.len() ==> #[trigger] arguments(ws, true)[i] == ItemView::Include(ws[i]),
    decreases ws.len(),
{
    if ws.len() > 0 {
        words_are_includes(ws.drop_last());
    }
}

/// An empty line, a comment, and a line of any other directive declare nothing.
pub proof fn other_lines_declare_nothing(line: Seq<char>)
    requires
        text::words(line).len() > 0 ==> {
            let k = text::words(line)[0];
            k[0] == '#' || (!says_host(k) && !says_include(k))
        },
    ensures
        line_items(line) == Seq::<ItemView>::empty(),
{
    let all = text::words(line);
    text::words_of_trimmed(line);
    if all.len() > 0 {
        text::words_are_words(line, 0);
        let k = all[0];
        keywords_are_told_by_letters(k);
        assert(all =~= seq![k] + all.skip(1));
        if k[0] != '#' {
            directive_items(line, k, all.skip(1));
        } else {
            reveal_strlit("#");
            let t = text::trimmed(line);
            let (front, end) = text::trimming_takes_the_ends(line);
            text::word_len_bounds(t);
            assert(text::words(t)[0] == t.take(text::word_len(t)));
            assert(t.take(text::word_len(t))[0] == t[0]);
            assert(t.take(1) =~= "#"@);
        }
    }
}

/// Lines declare what each declares, one after the other.
pub proof fn items_add_up(a: Seq<Seq<char>>, b: Seq<Seq<char>>)
    ensures
        items_of(a + b) == items_of(a) + items_of(b),
    decreases b.len(),
{
    if b.len() == 0 {
        assert(a + b =~= a);
        assert(items_of(a) + items_of(b) =~= items_of(a));
    } else {
        assert((a + b).drop_last() =~= a + b.drop_last());
        items_add_up(a, b.drop_last());
        assert(items_of(a + b) =~= items_of(a) + items_of(b));
    }
}

/// A line that goes on in no other declares its own items in front of those of the rest of
/// the file.
pub proof fn file_declares_line_by_line(line: Seq<char>, rest: Seq<char>)
    requires
        !line.contains('\n'),
        line.len() > 0 ==> line.last() != '\r',
        text::trim_right(line).len() > 0 ==> text::trim_right(line).last() != '\\',
    ensures
        items_of(logical_of(line + seq!['\n'] + rest)) == line_items(line) + items_of(
            logical_of(rest),
        ),
        items_of(logical_of(line + seq!['\r', '\n'] + rest)) == line_items(line) + items_of(
            logical_of(rest),
        ),
{
    reveal_strlit("\\");
    let lines = text::lines_of(rest);
    text::lines_add_up(line, rest);
    text::line_ends_are_alike(line);
    assert(!line.push('\r').contains('\n')) by {
        if line.push('\r').contains('\n') {
            let k = choose|k: int| 0 <= k < line.push('\r').len() && line.push('\r')[k] == '\n';
            assert(line[k] == '\n');
        }
    }
    text::lines_add_up(line.push('\r'), rest);
    assert(line.push('\r') + seq!['\n'] + rest =~= line + seq!['\r', '\n'] + rest);
    let all = seq![line] + lines;
    assert(all.drop_first() =~= lines);
    assert(all[0] == line);
    let t = text::trim_right(line);
    if t.len() > 0 {
        assert(t.skip(t.len() - 1)[0] == t.last());
    }
    assert(text::before_suffix(t, "\\"@) is None);
    assert(Seq::<char>::empty() + line =~= line);
    assert(logical(all, Seq::empty()) == seq![line] + logical(lines, Seq::empty()));
    items_add_up(seq![line], logical(lines, Seq::empty()));
    reveal_with_fuel(items_of, 2);
    assert(seq![line].drop_last() =~= Seq::empty());
    assert(items_of(seq![line]) =~= line_items(line));
}

/// A file that ends without a newline declares what it declares with one.
pub proof fn last_line_needs_no_newline(line: Seq<char>)
    requires
        !line.contains('\n'),
        line.len() > 0,
        text::trim_right(line).len() > 0 ==> text::trim_right(line).last() != '\\',
    ensures
        items_of(logical_of(line)) == line_items(line),
        items_of(logical_of(Seq::empty())) == Seq::<ItemView>::empty(),
{
    reveal_strlit("\\");
    text::lines_add_up(line, Seq::empty());
    let t = text::trim_right(line);
    if t.len() > 0 {
        assert(t.skip(t.len() - 1)[0] == t.last());
    }
    assert(text::before_suffix(t, "\\"@) is None);
    reveal_with_fuel(logical, 2);
    reveal_with_fuel(items_of, 2);
    assert(seq![line].drop_first() =~= Seq::empty());
    assert(Seq::<char>::empty() + line =~= line);
    assert(logical_of(line) =~= seq![line]);
    assert(seq![line].drop_last() =~= Seq::empty());
    assert(items_of(seq![line]) =~= line_items(line));
}

/// A line that ends in a backslash goes on in the next one, as if they were one line with a
/// space between them.
pub proof fn backslash_joins_lines(a: Seq<char>, b: Seq<char>, rest: Seq<char>)
    requires
        !a.contains('\n'),
        !b.contains('\n'),
        a.len() > 0 ==> !text::is_space(a.last()),
        b.len() > 0 ==> b.last() != '\r',
        text::trim_right(b).len() > 0 ==> text::trim_right(b).last() != '\\',
    ensures
        items_of(logical_of(a + seq!['\\', '\n'] + b + seq!['\n'] + rest)) == line_items(
            a + seq![' '] + b,
        ) + items_of(logical_of(rest)),
{
    reveal_strlit("\\");
    reveal_strlit(" ");
    let first = a.push('\\');
    let more = b + seq!['\n'] + rest;
    let lines = text::lines_of(rest);
    assert(!first.contains('\n')) by {
        if first.contains('\n') {
            let k = choose|k: int| 0 <= k < first.len() && first[k] == '\n';
            assert(a[k] == '\n');
        }
    }
    text::lines_add_up(first, more);
    text::lines_add_up(b, rest);
    text::line_ends_are_alike(b);
    assert(a + seq!['\\', '\n'] + b + seq!['\n'] + rest =~= first + seq!['\n'] + more);
    let tail = seq![b] + lines;
    let all = seq![first] + tail;
    assert(all.drop_first() =~= tail);
    assert(tail.drop_first() =~= lines);
    assert(text::trim_right(first) == first);
    assert(first.skip(a.len() as int) =~= "\\"@);
    assert(first.take(a.len() as int) =~= a);
    assert(text::before_suffix(first, "\\"@) == Some(a));
    assert(text::trim_right(a) == a);
    let begun = Seq::<char>::empty() + a + " "@;
    let whole = a + seq![' '] + b;
    assert(begun + b =~= whole);
    let t = text::trim_right(b);
    if t.len() > 0 {
        assert(t.skip(t.len() - 1)[0] == t.last());
    }
    assert(text::before_suffix(t, "\\"@) is None);
    assert(logical(tail, begun) == seq![whole] + logical(lines, Seq::empty()));
    assert(logical(all, Seq::empty()) == logical(tail, begun));
    items_add_up(seq![whole], logical(lines, Seq::empty()));
    reveal_with_fuel(items_of, 2);
    assert(seq![whole].drop_last() =~= Seq::empty());
    assert(items_of(seq![whole]) =~= line_items(whole));
}

// ---------------------------------------------------------------------------
// Laws of the aliases that are found
// ---------------------------------------------------------------------------

/// Every alias that a file declares is found, and those that were known stay known.
pub proof fn declared_aliases_are_found(
    fs: ConfigFiles,
    path: Seq<char>,
    items: Seq<ItemView>,
    stack: Set<Seq<char>>,
    aliases: Seq<Seq<char>>,
    a: Seq<char>,
)
    requires
        aliases.no_duplicates(),
        aliases.contains(a) || items.contains(ItemView::Alias(a)),
    ensures
        items_read(fs, path, items, stack, aliases).contains(a),
    decreases items.len(),
{
    items_give_each_alias_once(fs, path, items, stack, aliases);
    let found = items_read(fs, path, items, stack, aliases);
    if aliases.contains(a) {
        let k = choose|k: int| 0 <= k < aliases.len() && aliases[k] == a;
        assert(found[k] == a);
    } else {
        let now = read_one(fs, path, items[0], stack, aliases);
        let k = choose|k: int| 0 <= k < items.len() && items[k] == ItemView::Alias(a);
        if k == 0 {
            assert(now.last() == a);
        } else {
            assert(items.drop_first()[k - 1] == ItemView::Alias(a));
        }
        declared_aliases_are_found(fs, path, items.drop_first(), stack, now, a);
    }
}

proof fn read_one(
    fs: ConfigFiles,
    path: Seq<char>,
    item: ItemView,
    stack: Set<Seq<char>>,
    aliases: Seq<Seq<char>>,
) -> (now: Seq<Seq<char>>)
    requires
        aliases.no_duplicates(),
    ensures
        now == match item {
            ItemView::Alias(a) => with_alias(aliases, a),
            ItemView::Include(p) => files_read(
                fs,
                fs.expand(include_path(p, path, fs.home, fs.os)),
                stack,
                aliases,
            ),
            ItemView::File(p) => files_read(fs, seq![p], stack, aliases),
        },
        now.no_duplicates(),
{
    match item {
        ItemView::Alias(a) => {
            with_alias_is_distinct(aliases, a);
            with_alias(aliases, a)
        },
        ItemView::Include(p) => {
            let files = fs.expand(include_path(p, path, fs.home, fs.os));
            files_give_each_alias_once(fs, files, stack, aliases);
            files_read(fs, files, stack, aliases)
        },
        ItemView::File(p) => {
            files_give_each_alias_once(fs, seq![p], stack, aliases);
            files_read(fs, seq![p], stack, aliases)
        },
    }
}

/// Where a file includes nothing, what is found behind what was known are the aliases it
/// declares, in the order in which it declares them first.
pub proof fn flat_file_gives_its_aliases(
    fs: ConfigFiles,
    path: Seq<char>,
    items: Seq<ItemView>,
    stack: Set<Seq<char>>,
    aliases: Seq<Seq<char>>,
    declared: Seq<Seq<char>>,
)
    requires
        items.len() == declared.len(),
        forall|i: int|
            0 <= i < items.len() ==> #[trigger] items[i] == ItemView::Alias(declared[i]),
        (aliases + declared).no_duplicates(),
    ensures
        items_read(fs, path, items, stack, aliases) == aliases + declared,
    decreases items.len(),
{
    if items.len() > 0 {
        let a = declared[0];
        let now = aliases.push(a);
        let rest = declared.drop_first();
        assert(items[0] == ItemView::Alias(a));
        assert(!aliases.contains(a)) by {
            if aliases.contains(a) {
                let k = choose|k: int| 0 <= k < aliases.len() && aliases[k] == a;
                let all = aliases + declared;
                assert(all[k] == all[aliases.len() as int]);
            }
        }
        assert(now + rest =~= aliases + declared);
        assert forall|i: int| 0 <= i < items.drop_first().len() implies #[trigger] items.drop_first()[i]
            == ItemView::Alias(rest[i]) by {
            assert(items.drop_first()[i] == items[i + 1]);
        }
        flat_file_gives_its_aliases(fs, path, items.drop_first(), stack, now, rest);
    } else {
        assert(aliases + declared =~= aliases);
    }
}

/// A file of one `Host` line gives the words of the line as aliases, in order, to a walk
/// that has found none.
pub proof fn host_file_reads_back(
    fs: ConfigFiles,
    path: Seq<char>,
    k: Seq<char>,
    ws: Seq<Seq<char>>,
)
    requires
        fs.wf(),
        fs.files.dom().contains(path),
        fs.files[path].1 == k + " "@ + text::joined(ws, " "@) + "\n"@,
        says_host(k),
        ws.len() > 0,
        ws.no_duplicates(),
        forall|i: int|
            0 <= i < ws.len() ==> stands_for_itself(#[trigger] ws[i]) && ws[i].last() != '\\',
    ensures
        files_read(fs, seq![path], Set::empty(), Seq::empty()) == ws,
{
    reveal_strlit("\n");
    reveal_strlit(" ");
    let (canonical, content) = fs.files[path];
    let list = text::joined(ws, " "@);
    let line = k + " "@ + list;
    assert("\n"@ =~= seq!['\n']);
    assert(" "@ =~= seq![' ']);
    assert(content =~= line + seq!['\n'] + Seq::empty());
    words_hold_no_newline(ws);
    assert(!line.contains('\n')) by {
        if line.contains('\n') {
            let n = choose|n: int| 0 <= n < line.len() && line[n] == '\n';
            if n > 4 {
                assert(list.contains(list[n - 5]));
            }
        }
    }
    assert(line.last() == list.last());
    assert(stands_for_itself(ws[ws.len() - 1]));
    assert(!text::is_space(list.last()));
    assert(text::trim_right(line) == line);
    file_declares_line_by_line(line, Seq::empty());
    host_line_reads_back(k, ws);
    text::lines_add_up(line, Seq::empty());
    assert(logical_of(Seq::empty()) =~= Seq::empty());
    let items = items_of(logical_of(content));
    assert(items =~= line_items(line));
    assert(Seq::<Seq<char>>::empty() + ws =~= ws);
    flat_file_gives_its_aliases(
        fs,
        path,
        items,
        Set::empty().insert(canonical),
        Seq::empty(),
        ws,
    );
    reveal_with_fuel(files_read, 2);
    assert(seq![path].drop_first() =~= Seq::empty());
    assert(fs.enters(path, Set::empty()));
}

proof fn words_hold_no_newline(ws: Seq<Seq<char>>)
    requires
        ws.len() > 0,
        forall|i: int| 0 <= i < ws.len() ==> stands_for_itself(#[trigger] ws[i]),
    ensures
        !text::joined(ws, " "@).contains('\n'),
        text::joined(ws, " "@).len() > 0,
        text::joined(ws, " "@).last() == ws.last().last(),
    decreases ws.len(),
{
    reveal_strlit(" ");
    let last = ws[ws.len() - 1];
    assert(stands_for_itself(last));
    assert(!last.contains('\n')) by {
        if last.contains('\n') {
            let k = choose|k: int| 0 <= k < last.len() && last[k] == '\n';
            assert(!text::is_space(last[k]));
        }
    }
    if ws.len() > 1 {
        let v = ws.drop_last();
        assert forall|i: int| 0 <= i < v.len() implies stands_for_itself(#[trigger] v[i]) by {
            assert(v[i] == ws[i]);
        }
        words_hold_no_newline(v);
        let front = text::joined(v, " "@);
        let all = text::joined(ws, " "@);
        assert(all == front + " "@ + last);
        if all.contains('\n') {
            let k = choose|k: int| 0 <= k < all.len() && all[k] == '\n';
            if k < front.len() {
                assert(front.contains(front[k]));
            } else if k > front.len() {
                assert(last.contains(last[k - front.len() - 1]));
            }
        }
    }
}

/// Nothing is found but what was known and what the files that can be read declare.
pub proof fn found_aliases_are_declared(
    fs: ConfigFiles,
    files: Seq<Seq<char>>,
    stack: Set<Seq<char>>,
    aliases: Seq<Seq<char>>,
    a: Seq<char>,
)
    requires
        files_read(fs, files, stack, aliases).contains(a),
        !aliases.contains(a),
    ensures
        exists|p: Seq<char>| #[trigger]
            fs.files.dom().contains(p) && items_of(logical_of(fs.files[p].1)).contains(
                ItemView::Alias(a),
            ),
    decreases fs.free(stack), 0int, files.len(),
{
    if files.len() > 0 {
        if fs.enters(files[0], stack) {
            entering_takes_one(fs, files[0], stack);
            let (canonical, content) = fs.files[files[0]];
            let items = items_of(logical_of(content));
            let inner = stack.insert(canonical);
            let now = items_read(fs, files[0], items, inner, aliases);
            if now.contains(a) {
                found_items_are_declared(fs, files[0], items, inner, aliases, a);
                if items.contains(ItemView::Alias(a)) {
                    assert(fs.files.dom().contains(files[0]));
                }
            } else {
                found_aliases_are_declared(fs, files.drop_first(), stack, now, a);
            }
        } else {
            found_aliases_are_declared(fs, files.drop_first(), stack, aliases, a);
        }
    }
}

proof fn found_items_are_declared(
    fs: ConfigFiles,
    path: Seq<char>,
    items: Seq<ItemView>,
    stack: Set<Seq<char>>,
    aliases: Seq<Seq<char>>,
    a: Seq<char>,
)
    requires
        items_read(fs, path, items, stack, aliases).contains(a),
        !aliases.contains(a),
    ensures
        items.contains(ItemView::Alias(a)) || exists|p: Seq<char>| #[trigger]
            fs.files.dom().contains(p) && items_of(logical_of(fs.files[p].1)).contains(
                ItemView::Alias(a),
            ),
    decreases fs.free(stack), 1int, items.len(),
{
    if items.len() > 0 {
        let rest = items.drop_first();
        let now = match items[0] {
            ItemView::Alias(x) => with_alias(aliases, x),
            ItemView::Include(p) => files_read(
                fs,
                fs.expand(include_path(p, path, fs.home, fs.os)),
                stack,
                aliases,
            ),
            ItemView::File(p) => files_read(fs, seq![p], stack, aliases),
        };
        if now.contains(a) {
            match items[0] {
                ItemView::Alias(x) => {
                    let k = choose|k: int| 0 <= k < now.len() && now[k] == a;
                    if k < aliases.len() {
                        assert(aliases[k] == a);
                    }
                    assert(items.contains(items[0]));
                },
                ItemView::Include(p) => {
                    found_aliases_are_declared(
                        fs,
                        fs.expand(include_path(p, path, fs.home, fs.os)),
                        stack,
                        aliases,
                        a,
                    );
                },
                ItemView::File(p) => {
                    found_aliases_are_declared(fs, seq![p], stack, aliases, a);
                },
            }
        } else {
            found_items_are_declared(fs, path, rest, stack, now, a);
            if rest.contains(ItemView::Alias(a)) {
                let k = choose|k: int| 0 <= k < rest.len() && rest[k] == ItemView::Alias(a);
                assert(items[k + 1] == ItemView::Alias(a));
            }
        }
    }
}

/// What an include stands for is read in its place: the aliases of its files are found too.
pub proof fn included_aliases_are_found(
    fs: ConfigFiles,
    path: Seq<char>,
    items: Seq<ItemView>,
    stack: Set<Seq<char>>,
    aliases: Seq<Seq<char>>,
    i: int,
    file: Seq<char>,
    a: Seq<char>,
)
    requires
        aliases.no_duplicates(),
        0 <= i < items.len(),
        items[i] matches ItemView::Include(p) && fs.expand(
            include_path(p, path, fs.home, fs.os),
        ).contains(file),
        fs.enters(file, stack),
        items_of(logical_of(fs.files[file].1)).contains(ItemView::Alias(a)),
    ensures
        items_read(fs, path, items, stack, aliases).contains(a),
    decreases items.len(),
{
    let now = read_one(fs, path, items[0], stack, aliases);
    if i == 0 {
        let p = items[0]->Include_0;
        aliases_of_files_are_found(
            fs,
            fs.expand(include_path(p, path, fs.home, fs.os)),
            stack,
            aliases,
            file,
            a,
        );
        declared_aliases_are_found(fs, path, items.drop_first(), stack, now, a);
    } else {
        assert(items.drop_first()[i - 1] == items[i]);
        included_aliases_are_found(fs, path, items.drop_first(), stack, now, i - 1, file, a);
    }
}

/// Every alias that one of the files declares is found, unless the file is being read.
pub proof fn aliases_of_files_are_found(
    fs: ConfigFiles,
    files: Seq<Seq<char>>,
    stack: Set<Seq<char>>,
    aliases: Seq<Seq<char>>,
    file: Seq<char>,
    a: Seq<char>,
)
    requires
        aliases.no_duplicates(),
        files.contains(file),
        fs.enters(file, stack),
        items_of(logical_of(fs.files[file].1)).contains(ItemView::Alias(a)),
    ensures
        files_read(fs, files, stack, aliases).contains(a),
    decreases files.len(),
{
    let k = choose|k: int| 0 <= k < files.len() && files[k] == file;
    let now = if fs.enters(files[0], stack) {
        let (canonical, content) = fs.files[files[0]];
        let items = items_of(logical_of(content));
        let inner = stack.insert(canonical);
        entering_takes_one(fs, files[0], stack);
        items_give_each_alias_once(fs, files[0], items, inner, aliases);
        if k == 0 {
            declared_aliases_are_found(fs, files[0], items, inner, aliases, a);
        }
        items_read(fs, files[0], items, inner, aliases)
    } else {
        aliases
    };
    let rest = files.drop_first();
    if k == 0 {
        files_give_each_alias_once(fs, rest, stack, now);
        let found = files_read(fs, rest, stack, now);
        let n = choose|n: int| 0 <= n < now.len() && now[n] == a;
        assert(found[n] == a);
    } else {
        assert(rest[k - 1] == file);
        aliases_of_files_are_found(fs, rest, stack, now, file, a);
    }
}

// ---------------------------------------------------------------------------
// Laws of stanzas
// ---------------------------------------------------------------------------

/// A stanza is given as it is written: its header where it names the alias, and the lines
/// below it up to the next header, each without white space at its end. What stands in
/// another stanza, or before the first, is left out.
pub proof fn stanza_line_by_line(
    line: Seq<char>,
    rest: Seq<Seq<char>>,
    alias: Seq<char>,
    inside: bool,
    out: Seq<Seq<char>>,
)
    ensures
        ({
            let ws = text::words(line);
            let header = ws.len() > 0 && (says_host(ws[0]) || same_word(ws[0], "Match"@));
            let named = ws.len() > 0 && ws.skip(1).contains(alias);
            let given = stanza_lines(seq![line] + rest, alias, inside, out);
            let kept = text::trim_right(line);
            &&& header && named && out.len() == 0 ==> given == stanza_lines(
                rest,
                alias,
                true,
                seq![kept],
            )
            &&& header && named && out.len() > 0 ==> given == stanza_lines(
                rest,
                alias,
                true,
                out + seq![Seq::empty(), kept],
            )
            &&& header && !named ==> given == stanza_lines(rest, alias, false, out)
            &&& !header && inside ==> given == stanza_lines(rest, alias, true, out.push(kept))
            &&& !header && !inside ==> given == stanza_lines(rest, alias, false, out)
        }),
{
    let ws = text::words(line);
    if ws.len() > 0 {
        keywords_are_told_by_letters(ws[0]);
    }
    let all = seq![line] + rest;
    assert(all.drop_first() =~= rest);
    let kept = text::trim_right(line);
    assert(Seq::<Seq<char>>::empty().push(kept) =~= seq![kept]);
    assert(out.push(Seq::empty()).push(kept) =~= out + seq![Seq::empty(), kept]);
    if out.len() == 0 {
        assert(out =~= Seq::empty());
    }
}

/// An include is sought where it says: below the home directory where it begins with a
/// tilde, where it stands if it is absolute, and else beside the file that includes it.
pub proof fn include_is_sought_where_it_says(
    rest: Seq<char>,
    from: Seq<char>,
    home: Seq<char>,
    os: Seq<char>,
)
    requires
        os != "windows"@,
        home.len() > 0,
        home[0] == '/',
        home.last() != '/',
        rest.len() > 0,
        rest[0] != '/',
        rest[0] != '~',
    ensures
        include_path("~/"@ + rest, from, home, os) == home + "/"@ + rest,
        include_path("~"@, from, home, os) == home,
        include_path("/"@ + rest, from, home, os) == "/"@ + rest,
        include_path(rest, from, home, os) == paths::below(paths::parent(from), rest),
{
    reveal_strlit("~");
    reveal_strlit("~/");
    reveal_strlit("/");
    let tilde = "~/"@ + rest;
    let root = "/"@ + rest;
    assert(tilde.take(2) =~= "~/"@);
    assert(tilde.skip(2) =~= rest);
    assert(tilde != "~"@);
    assert(root[0] == '/');
    assert(root.take(1)[0] == '/');
    if text::begins(root, "~/"@) {
        assert(root.take(2)[0] == root[0]);
    }
    if text::begins(rest, "~/"@) {
        assert(rest.take(2)[0] == rest[0]);
    }
    assert("~"@[0] == '~');
    assert(rest != "~"@);
    assert(root != "~"@);
    paths::drives_are_for_windows(home, rest, os);
    paths::drives_are_for_windows(paths::parent(from), rest, os);
    paths::drives_are_for_windows(from, rest, os);
}

} // verus!
