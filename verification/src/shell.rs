//! Words for a POSIX shell: quoting them, joining them, and what a shell reads back.
use crate::text;
use vstd::prelude::*;

verus! {

/// Whether a character is an ASCII letter or digit.
pub open spec fn alphanumeric(c: char) -> bool {
    ('a' <= c && c <= 'z') || ('A' <= c && c <= 'Z') || ('0' <= c && c <= '9')
}

/// Whether a character is an ASCII letter or digit.
pub fn is_alphanumeric(c: char) -> (r: bool)
    ensures
        r == alphanumeric(c),
{
    ('a' <= c && c <= 'z') || ('A' <= c && c <= 'Z') || ('0' <= c && c <= '9')
}

/// Whether a character means itself to a shell.
pub open spec fn plain(c: char) -> bool {
    alphanumeric(c) || c == '_' || c == '-' || c == '.' || c == '/'
}

/// Whether a word needs no quotes: it is not empty, and each of its characters means
/// itself.
pub open spec fn plain_word(t: Seq<char>) -> bool {
    t.len() > 0 && forall|i: int| 0 <= i < t.len() ==> plain(#[trigger] t[i])
}

/// `t` with each single quote written as `'\''`.
pub open spec fn escaped(t: Seq<char>) -> Seq<char>
    decreases t.len(),
{
    if t.len() == 0 {
        Seq::empty()
    } else if t.last() == '\'' {
        escaped(t.drop_last()) + seq!['\'', '\\', '\'', '\'']
    } else {
        escaped(t.drop_last()).push(t.last())
    }
}

/// `t` in single quotes.
pub open spec fn single_quoted(t: Seq<char>) -> Seq<char> {
    seq!['\''] + escaped(t) + seq!['\'']
}

/// `t` as one word of a shell command.
pub open spec fn quoted(t: Seq<char>) -> Seq<char> {
    if plain_word(t) {
        t
    } else {
        single_quoted(t)
    }
}

/// `t` in single quotes, whatever it holds.
pub fn single_quote(t: &str) -> (out: String)
    ensures
        out@ == single_quoted(t@),
{
    let cs = text::chars_of(t);
    let mut out: String = String::new();
    out.push('\'');
    let mut i: usize = 0;
    while i < cs.len()
        invariant
            cs@ == t@,
            i <= cs@.len(),
            out@ == seq!['\''] + escaped(t@.take(i as int)),
        decreases cs.len() - i,
    {
        let c = cs[i];
        let ghost before = out@;
        let ghost head = t@.take(i + 1);
        proof {
            assert(head.drop_last() =~= t@.take(i as int));
            assert(head.last() == c);
        }
        if c == '\'' {
            out.push('\'');
            out.push('\\');
            out.push('\'');
            out.push('\'');
            proof {
                assert(out@ =~= before + seq!['\'', '\\', '\'', '\'']);
                assert(out@ =~= seq!['\''] + escaped(head));
            }
        } else {
            out.push(c);
            proof {
                assert(out@ =~= seq!['\''] + escaped(head));
            }
        }
        i += 1;
    }
    out.push('\'');
    proof {
        assert(t@.take(i as int) =~= t@);
        assert(out@ =~= single_quoted(t@));
    }
    out
}

/// `t` as one word of a shell command: bare where every character means itself, in
/// single quotes elsewhere.
pub fn quote(t: &str) -> (out: String)
    ensures
        out@ == quoted(t@),
{
    let cs = text::chars_of(t);
    let mut safe = cs.len() > 0;
    let mut i: usize = 0;
    while i < cs.len()
        invariant
            cs@ == t@,
            i <= cs@.len(),
            safe == (cs@.len() > 0 && forall|j: int| 0 <= j < i ==> plain(#[trigger] cs@[j])),
        decreases cs.len() - i,
    {
        let c = cs[i];
        if !(is_alphanumeric(c) || c == '_' || c == '-' || c == '.' || c == '/') {
            safe = false;
        }
        i += 1;
    }
    if safe {
        t.to_owned()
    } else {
        single_quote(t)
    }
}

/// The words of a command, quoted, with a space between them.
pub open spec fn command(argv: Seq<Seq<char>>) -> Seq<char> {
    text::joined(argv.map_values(|t: Seq<char>| quoted(t)), " "@)
}

/// A shell command that runs `argv`, each word of it quoted.
pub fn remote_command(argv: &[String]) -> (out: String)
    ensures
        out@ == command(text::texts(argv@)),
{
    let mut words: Vec<String> = Vec::new();
    let mut i: usize = 0;
    while i < argv.len()
        invariant
            i <= argv@.len(),
            words@.len() == i,
            forall|j: int| 0 <= j < i ==> (#[trigger] words@[j])@ == quoted(argv@[j]@),
        decreases argv.len() - i,
    {
        words.push(quote(argv[i].as_str()));
        i += 1;
    }
    proof {
        assert(text::texts(words@) =~= text::texts(argv@).map_values(|t: Seq<char>| quoted(t)));
    }
    text::join(&words, " ")
}

// ---------------------------------------------------------------------------
// What a shell reads
// ---------------------------------------------------------------------------

/// Where a shell stands in a command.
pub enum Mode {
    Outside,
    /// Between single quotes.
    Inside,
    /// Behind a backslash.
    Escape,
}

/// What a shell has read: whole words, and the word that it is in.
#[verifier::ext_equal]
pub struct Reading {
    pub words: Seq<Seq<char>>,
    pub word: Option<Seq<char>>,
    pub mode: Mode,
}

/// The word a shell is in, begun if it is in none.
pub open spec fn current(r: Reading) -> Seq<char> {
    match r.word {
        Some(w) => w,
        None => Seq::empty(),
    }
}

/// What a shell has read once it has read one more character. Of a shell's syntax
/// this knows spaces, single quotes and backslashes.
pub open spec fn read_char(r: Reading, c: char) -> Reading {
    match r.mode {
        Mode::Escape => Reading { word: Some(current(r).push(c)), mode: Mode::Outside, ..r },
        Mode::Inside => if c == '\'' {
            Reading { mode: Mode::Outside, ..r }
        } else {
            Reading { word: Some(current(r).push(c)), ..r }
        },
        Mode::Outside => if c == ' ' {
            match r.word {
                Some(w) => Reading { words: r.words.push(w), word: None, ..r },
                None => r,
            }
        } else if c == '\'' {
            Reading { word: Some(current(r)), mode: Mode::Inside, ..r }
        } else if c == '\\' {
            Reading { word: Some(current(r)), mode: Mode::Escape, ..r }
        } else {
            Reading { word: Some(current(r).push(c)), ..r }
        },
    }
}

/// What a shell has read once it has read `s` too.
pub open spec fn read_on(r: Reading, s: Seq<char>) -> Reading
    decreases s.len(),
{
    if s.len() == 0 {
        r
    } else {
        read_char(read_on(r, s.drop_last()), s.last())
    }
}

/// The words that a shell reads in `s`.
pub open spec fn shell_words(s: Seq<char>) -> Seq<Seq<char>> {
    let r = read_on(
        Reading { words: Seq::empty(), word: None, mode: Mode::Outside },
        s,
    );
    match r.word {
        Some(w) => r.words.push(w),
        None => r.words,
    }
}

proof fn read_on_sum(r: Reading, a: Seq<char>, b: Seq<char>)
    ensures
        read_on(r, a + b) == read_on(read_on(r, a), b),
    decreases b.len(),
{
    if b.len() == 0 {
        assert(a + b =~= a);
    } else {
        read_on_sum(r, a, b.drop_last());
        assert((a + b).drop_last() =~= a + b.drop_last());
        assert((a + b).last() == b.last());
    }
}

/// Between single quotes, escaped text is read as the text.
proof fn read_escaped(r: Reading, t: Seq<char>)
    requires
        r.mode is Inside,
        r.word is Some,
    ensures
        read_on(r, escaped(t)) == (Reading { word: Some(r.word->0 + t), ..r }),
    decreases t.len(),
{
    if t.len() == 0 {
        assert(r.word->0 + t =~= r.word->0);
    } else {
        let head = t.drop_last();
        read_escaped(r, head);
        let mid = read_on(r, escaped(head));
        if t.last() == '\'' {
            let tail = seq!['\'', '\\', '\'', '\''];
            read_on_sum(r, escaped(head), tail);
            reveal_with_fuel(read_on, 5);
            assert(tail.drop_last() =~= seq!['\'', '\\', '\'']);
            assert(tail.drop_last().drop_last() =~= seq!['\'', '\\']);
            assert(tail.drop_last().drop_last().drop_last() =~= seq!['\'']);
            assert(tail.drop_last().drop_last().drop_last().drop_last() =~= Seq::empty());
            assert((r.word->0 + head).push('\'') =~= r.word->0 + t);
        } else {
            let tail = seq![t.last()];
            assert(escaped(t) =~= escaped(head) + tail);
            read_on_sum(r, escaped(head), tail);
            reveal_with_fuel(read_on, 2);
            assert(tail.drop_last() =~= Seq::empty());
            assert((r.word->0 + head).push(t.last()) =~= r.word->0 + t);
        }
    }
}

/// A text in single quotes is read as one word.
pub proof fn read_single_quoted(r: Reading, t: Seq<char>)
    requires
        r.mode is Outside,
        r.word is None,
    ensures
        read_on(r, single_quoted(t)) == (Reading { word: Some(t), ..r }),
{
    let open = seq!['\''];
    reveal_with_fuel(read_on, 2);
    assert(open.drop_last() =~= Seq::empty());
    let inside = Reading { word: Some(Seq::empty()), mode: Mode::Inside, ..r };
    assert(read_on(r, open) == inside);
    read_on_sum(r, open, escaped(t));
    read_escaped(inside, t);
    assert(Seq::<char>::empty() + t =~= t);
    read_on_sum(r, open + escaped(t), open);
}

/// Characters that mean themselves are read as themselves.
pub proof fn read_literal(r: Reading, t: Seq<char>)
    requires
        r.mode is Outside,
        t.len() > 0,
        forall|i: int|
            0 <= i < t.len() ==> (#[trigger] t[i]) != ' ' && t[i] != '\'' && t[i] != '\\',
    ensures
        read_on(r, t) == (Reading { word: Some(current(r) + t), ..r }),
    decreases t.len(),
{
    let head = t.drop_last();
    assert forall|i: int| 0 <= i < head.len() implies (#[trigger] head[i]) != ' ' && head[i] != '\''
        && head[i] != '\\' by {
        assert(head[i] == t[i]);
    }
    if head.len() == 0 {
        assert(read_on(r, head) == r);
        assert(current(r).push(t.last()) =~= current(r) + t);
    } else {
        read_literal(r, head);
        assert((current(r) + head).push(t.last()) =~= current(r) + t);
    }
}

/// A quoted word is read as the word.
pub proof fn read_quoted(r: Reading, t: Seq<char>)
    requires
        r.mode is Outside,
        r.word is None,
    ensures
        read_on(r, quoted(t)) == (Reading { word: Some(t), ..r }),
{
    if plain_word(t) {
        assert forall|i: int| 0 <= i < t.len() implies (#[trigger] t[i]) != ' ' && t[i] != '\''
            && t[i] != '\\' by {
            assert(plain(t[i]));
        }
        read_literal(r, t);
        assert(current(r) + t =~= t);
    } else {
        read_single_quoted(r, t);
    }
}

// ---------------------------------------------------------------------------
// Laws of quoting
// ---------------------------------------------------------------------------

/// A shell reads a quoted word back as that one word: nothing in a word is taken for
/// syntax.
pub proof fn word_reads_back(t: Seq<char>)
    ensures
        shell_words(quoted(t)) == seq![t],
{
    read_quoted(Reading { words: Seq::empty(), word: None, mode: Mode::Outside }, t);
    assert(Seq::<Seq<char>>::empty().push(t) =~= seq![t]);
}

/// A shell reads a command back as the words it was made of.
pub proof fn command_reads_back(argv: Seq<Seq<char>>)
    ensures
        shell_words(command(argv)) == argv,
{
    command_read(argv);
    if argv.len() > 0 {
        assert(argv.drop_last().push(argv.last()) =~= argv);
    } else {
        assert(argv =~= Seq::empty());
    }
}

proof fn command_read(argv: Seq<Seq<char>>)
    ensures
        ({
            let start = Reading { words: Seq::empty(), word: None, mode: Mode::Outside };
            read_on(start, command(argv)) == if argv.len() == 0 {
                start
            } else {
                Reading {
                    words: argv.drop_last(),
                    word: Some(argv.last()),
                    mode: Mode::Outside,
                }
            }
        }),
    decreases argv.len(),
{
    let start = Reading { words: Seq::empty(), word: None, mode: Mode::Outside };
    let f = |t: Seq<char>| quoted(t);
    if argv.len() == 1 {
        read_quoted(start, argv[0]);
        assert(command(argv) == quoted(argv[0]));
        assert(argv.drop_last() =~= Seq::empty());
    } else if argv.len() > 1 {
        let head = argv.drop_last();
        command_read(head);
        assert(argv.map_values(f).drop_last() =~= head.map_values(f));
        let left = command(head);
        reveal_strlit(" ");
        assert(command(argv) == left + " "@ + quoted(argv.last()));
        read_on_sum(start, left, " "@);
        reveal_with_fuel(read_on, 2);
        assert(" "@.drop_last() =~= Seq::empty());
        let gap = read_on(start, left + " "@);
        assert(head.drop_last().push(head.last()) =~= head);
        assert(gap == (Reading { words: head, word: None, mode: Mode::Outside }));
        read_on_sum(start, left + " "@, quoted(argv.last()));
        read_quoted(gap, argv.last());
    }
}

/// A word stands bare exactly where it is not empty and each of its characters is a letter or
/// digit of ASCII, an underscore, a dash, a dot or a slash, none of which means anything to a
/// shell; any other stands in single quotes.
pub proof fn only_plain_words_stand_bare(t: Seq<char>)
    ensures
        quoted(t) == t <==> t.len() > 0 && forall|i: int|
            0 <= i < t.len() ==> {
                let c = #[trigger] t[i];
                ('a' <= c && c <= 'z') || ('A' <= c && c <= 'Z') || ('0' <= c && c <= '9') || c
                    == '_' || c == '-' || c == '.' || c == '/'
            },
        quoted(t) != t ==> quoted(t).len() >= 2 && quoted(t)[0] == '\'' && quoted(t).last()
            == '\'',
{
    escaped_is_longer(t);
    if t.len() > 0 && !plain_word(t) {
        assert(single_quoted(t).len() > t.len());
    }
    if t.len() > 0 && (forall|i: int|
        0 <= i < t.len() ==> {
            let c = #[trigger] t[i];
            ('a' <= c && c <= 'z') || ('A' <= c && c <= 'Z') || ('0' <= c && c <= '9') || c == '_'
                || c == '-' || c == '.' || c == '/'
        }) {
        assert(plain_word(t));
    }
}

proof fn escaped_is_longer(t: Seq<char>)
    ensures
        escaped(t).len() >= t.len(),
    decreases t.len(),
{
    if t.len() > 0 {
        escaped_is_longer(t.drop_last());
    }
}

/// In single quotes a word that holds none is as it is.
pub proof fn single_quotes_enclose(t: Seq<char>)
    requires
        !t.contains('\''),
    ensures
        single_quoted(t) == seq!['\''] + t + seq!['\''],
{
    escaped_without_quotes(t);
}

proof fn escaped_without_quotes(t: Seq<char>)
    requires
        !t.contains('\''),
    ensures
        escaped(t) == t,
    decreases t.len(),
{
    if t.len() > 0 {
        let s = t.drop_last();
        assert(t.last() != '\'') by {
            assert(t.contains(t.last()));
        }
        assert(!s.contains('\'')) by {
            if s.contains('\'') {
                let k = choose|k: int| 0 <= k < s.len() && s[k] == '\'';
                assert(t[k] == '\'');
            }
        }
        escaped_without_quotes(s);
        assert(s.push(t.last()) =~= t);
    }
}

} // verus!
