//! Textual form of the persisted plan-and-state document.
//!
//! The document is a small, line-oriented dialect: three quoted header
//! fields (`source`, `remote`, `cleaned`), then one block per commit opened
//! by `[[commit]]` with a quoted `message`, an optional quoted `hints`, and
//! an optional `history = [` ... `]` block holding one tagged entry per
//! line.  Quoted strings escape the backslash, the double quote, and the
//! line-control characters, so a value never spans lines.
//!
//! [`HistorySpec::to_toml`] emits this form and [`HistorySpec::from_toml`]
//! reads it back; [`lemma_document_round_trip`] proves that serialising any
//! encodable document and parsing the result yields the document unchanged.

use vstd::prelude::*;

use crate::plan::{CommitSpecView, HistoryEntryView, HistorySpecView};

verus! {

use crate::text::{copy_range, is_space};

// ---------------------------------------------------------------------------
// String escaping
// ---------------------------------------------------------------------------
/// Characters that may appear in a quoted value: anything outside the
/// control range, plus the three control characters that have escapes.
pub open spec fn encodable_char(c: char) -> bool {
    c as u32 >= 0x20 || c == '\n' || c == '\r' || c == '\t'
}

/// A sequence is encodable when each of its characters is.
pub open spec fn encodable(s: Seq<char>) -> bool {
    forall|i: int| 0 <= i < s.len() ==> encodable_char(s[i])
}

/// A character that stands for itself inside a quoted value.
pub open spec fn plain_char(c: char) -> bool {
    c as u32 >= 0x20 && c != '\\' && c != '"'
}

/// The escaped form of one character.
pub open spec fn esc_char(c: char) -> Seq<char> {
    if c == '\\' {
        seq!['\\', '\\']
    } else if c == '"' {
        seq!['\\', '"']
    } else if c == '\n' {
        seq!['\\', 'n']
    } else if c == '\r' {
        seq!['\\', 'r']
    } else if c == '\t' {
        seq!['\\', 't']
    } else {
        seq![c]
    }
}

/// The escaped form of a value.
pub open spec fn esc(s: Seq<char>) -> Seq<char>
    decreases s.len(),
{
    if s.len() == 0 {
        Seq::empty()
    } else {
        esc_char(s[0]) + esc(s.drop_first())
    }
}

/// The character an escape letter stands for, if the letter is recognised.
pub open spec fn unesc_char(c: char) -> Option<char> {
    if c == '\\' {
        Some('\\')
    } else if c == '"' {
        Some('"')
    } else if c == 'n' {
        Some('\n')
    } else if c == 'r' {
        Some('\r')
    } else if c == 't' {
        Some('\t')
    } else {
        None
    }
}

/// Unescaping: the inverse reading of [`esc`].  `None` on a lone or unknown
/// escape, or on a raw character that may not stand in a quoted value.
pub open spec fn unesc(s: Seq<char>) -> Option<Seq<char>>
    decreases s.len(),
{
    if s.len() == 0 {
        Some(Seq::empty())
    } else if s[0] == '\\' {
        if s.len() >= 2 && unesc_char(s[1]) is Some {
            match unesc(s.skip(2)) {
                Some(r) => Some(seq![unesc_char(s[1])->0] + r),
                None => None,
            }
        } else {
            None
        }
    } else if plain_char(s[0]) {
        match unesc(s.drop_first()) {
            Some(r) => Some(seq![s[0]] + r),
            None => None,
        }
    } else {
        None
    }
}

/// Escaping an encodable value and unescaping the result gives the value
/// back.
pub proof fn lemma_unesc_esc(s: Seq<char>)
    requires
        encodable(s),
    ensures
        unesc(esc(s)) == Some(s),
    decreases s.len(),
{
    if s.len() == 0 {
        assert(esc(s) =~= Seq::<char>::empty());
    } else {
        let c = s[0];
        let rest = s.drop_first();
        assert(encodable(rest)) by {
            assert(forall|i: int|
                0 <= i < rest.len() ==> rest[i] == s[i + 1] && encodable_char(s[i + 1]));
        }
        lemma_unesc_esc(rest);
        assert(encodable_char(c));
        if c == '\\' || c == '"' || c == '\n' || c == '\r' || c == '\t' {
            let e = esc(s);
            assert(e =~= esc_char(c) + esc(rest));
            assert(e.len() >= 2 && e[0] == '\\');
            assert(e.skip(2) =~= esc(rest));
            assert(unesc(e) == Some(seq![unesc_char(e[1])->0] + rest));
            assert(seq![unesc_char(e[1])->0] + rest =~= s);
        } else {
            let e = esc(s);
            assert(esc_char(c) =~= seq![c]);
            assert(e =~= seq![c] + esc(rest));
            assert(e[0] == c && plain_char(c));
            assert(e.drop_first() =~= esc(rest));
            assert(unesc(e) == Some(seq![c] + rest));
            assert(seq![c] + rest =~= s);
        }
    }
}

/// Whatever unescaping accepts is an encodable value.
pub proof fn lemma_unesc_encodable(s: Seq<char>)
    requires
        unesc(s) is Some,
    ensures
        encodable(unesc(s)->0),
    decreases s.len(),
{
    if s.len() == 0 {
    } else if s[0] == '\\' {
        lemma_unesc_encodable(s.skip(2));
        let r = unesc(s)->0;
        let tail = unesc(s.skip(2))->0;
        assert(r == seq![unesc_char(s[1])->0] + tail);
        assert(forall|i: int| 0 <= i < r.len() ==> #[trigger] encodable_char(r[i])) by {
            assert(encodable_char(unesc_char(s[1])->0));
            assert(forall|i: int| 1 <= i < r.len() ==> r[i] == tail[i - 1]);
        }
    } else {
        lemma_unesc_encodable(s.drop_first());
        let r = unesc(s)->0;
        let tail = unesc(s.drop_first())->0;
        assert(r == seq![s[0]] + tail);
        assert(forall|i: int| 0 <= i < r.len() ==> #[trigger] encodable_char(r[i])) by {
            assert(encodable_char(s[0]));
            assert(forall|i: int| 1 <= i < r.len() ==> r[i] == tail[i - 1]);
        }
    }
}

/// Escaped text never contains a line feed, so a quoted value stays on its
/// line.
pub proof fn lemma_esc_no_newline(s: Seq<char>)
    requires
        encodable(s),
    ensures
        forall|i: int| 0 <= i < esc(s).len() ==> esc(s)[i] != '\n',
    decreases s.len(),
{
    if s.len() == 0 {
    } else {
        let rest = s.drop_first();
        assert(encodable(rest)) by {
            assert(forall|i: int|
                0 <= i < rest.len() ==> rest[i] == s[i + 1] && encodable_char(s[i + 1]));
        }
        lemma_esc_no_newline(rest);
        let e = esc(s);
        let h = esc_char(s[0]);
        assert(forall|i: int| 0 <= i < h.len() ==> h[i] != '\n');
        assert(forall|i: int|
            0 <= i < e.len() ==> e[i] == if i < h.len() {
                h[i]
            } else {
                esc(rest)[i - h.len()]
            });
    }
}

/// Appending one character extends the escaped form by that character's
/// escape.
pub proof fn lemma_esc_push(s: Seq<char>, c: char)
    ensures
        esc(s.push(c)) == esc(s) + esc_char(c),
    decreases s.len(),
{
    if s.len() == 0 {
        assert(s.push(c).drop_first() =~= Seq::<char>::empty());
        assert(s.push(c)[0] == c);
        assert(esc(s.push(c)) == esc_char(c) + esc(Seq::<char>::empty()));
        assert(esc_char(c) + esc(Seq::<char>::empty()) =~= esc_char(c));
        assert(esc(s) + esc_char(c) =~= esc_char(c));
    } else {
        assert(s.push(c).drop_first() =~= s.drop_first().push(c));
        lemma_esc_push(s.drop_first(), c);
        assert(esc(s.push(c)) == esc_char(s[0]) + (esc(s.drop_first()) + esc_char(c)));
        assert(esc_char(s[0]) + (esc(s.drop_first()) + esc_char(c)) =~= (esc_char(s[0]) + esc(
            s.drop_first(),
        )) + esc_char(c));
    }
}

// ---------------------------------------------------------------------------
// Lines
// ---------------------------------------------------------------------------
/// A line: text without a line feed.
pub open spec fn no_newline(l: Seq<char>) -> bool {
    forall|i: int| 0 <= i < l.len() ==> l[i] != '\n'
}

/// The text of a sequence of lines, each terminated by a line feed.
pub open spec fn unlines(ls: Seq<Seq<char>>) -> Seq<char>
    decreases ls.len(),
{
    if ls.len() == 0 {
        Seq::empty()
    } else {
        ls[0] + seq!['\n'] + unlines(ls.drop_first())
    }
}

/// The position of the first line feed in `s`, or `s.len()` if none.
pub open spec fn first_newline(s: Seq<char>) -> int
    decreases s.len(),
{
    if s.len() == 0 {
        0
    } else if s[0] == '\n' {
        0
    } else {
        1 + first_newline(s.drop_first())
    }
}

/// Characterisation of [`first_newline`]: it is the unique boundary with no
/// line feed before it and (when interior) a line feed at it.
pub proof fn lemma_first_newline_is(s: Seq<char>, k: int)
    requires
        0 <= k <= s.len(),
        forall|i: int| 0 <= i < k ==> s[i] != '\n',
        k < s.len() ==> s[k] == '\n',
    ensures
        first_newline(s) == k,
    decreases s.len(),
{
    if s.len() == 0 {
    } else if k == 0 {
    } else {
        let rest = s.drop_first();
        assert(forall|i: int| 0 <= i < k - 1 ==> rest[i] == s[i + 1] && s[i + 1] != '\n');
        assert(k - 1 < rest.len() ==> rest[k - 1] == s[k]);
        lemma_first_newline_is(rest, k - 1);
    }
}

/// Splitting text into lines at each line feed; a trailing fragment without
/// a terminator forms a final line.
pub open spec fn to_lines(s: Seq<char>) -> Seq<Seq<char>>
    decreases s.len(),
{
    if s.len() == 0 {
        Seq::empty()
    } else {
        let k = first_newline(s);
        if 0 <= k < s.len() {
            seq![s.subrange(0, k)] + to_lines(s.skip(k + 1))
        } else {
            seq![s]
        }
    }
}

/// Splitting the joined text of newline-free lines gives the lines back.
pub proof fn lemma_to_lines_unlines(ls: Seq<Seq<char>>)
    requires
        forall|i: int| 0 <= i < ls.len() ==> no_newline(#[trigger] ls[i]),
    ensures
        to_lines(unlines(ls)) == ls,
    decreases ls.len(),
{
    if ls.len() == 0 {
        assert(to_lines(unlines(ls)) =~= ls);
    } else {
        let l = ls[0];
        let rest = ls.drop_first();
        let s = unlines(ls);
        assert(no_newline(l));
        assert(forall|i: int| 0 <= i < rest.len() ==> rest[i] == ls[i + 1] && no_newline(
            #[trigger] ls[i + 1],
        ));
        lemma_to_lines_unlines(rest);
        assert(s == l + seq!['\n'] + unlines(rest));
        assert(s.len() == l.len() + 1 + unlines(rest).len());
        assert(forall|i: int| 0 <= i < l.len() ==> s[i] == l[i] && l[i] != '\n');
        assert(s[l.len() as int] == '\n');
        lemma_first_newline_is(s, l.len() as int);
        assert(s.len() > 0) by {
            assert(s.len() >= l.len() + 1);
        }
        let k = first_newline(s);
        assert(k == l.len());
        assert(k < s.len());
        assert(s.subrange(0, k) =~= l);
        assert(s.skip(k + 1) =~= unlines(rest));
        assert(to_lines(s) == seq![l] + to_lines(unlines(rest)));
        assert(seq![l] + rest =~= ls);
    }
}

/// Appending one line to a line list appends its text and a terminator.
pub proof fn lemma_unlines_push(ls: Seq<Seq<char>>, l: Seq<char>)
    ensures
        unlines(ls.push(l)) == unlines(ls) + l + seq!['\n'],
    decreases ls.len(),
{
    if ls.len() == 0 {
        assert(ls.push(l).drop_first() =~= Seq::<Seq<char>>::empty());
        assert(ls.push(l)[0] == l);
        assert(unlines(ls.push(l)) == l + seq!['\n'] + unlines(Seq::<Seq<char>>::empty()));
        assert(l + seq!['\n'] + unlines(Seq::<Seq<char>>::empty()) =~= l + seq!['\n']);
        assert(unlines(ls) + l + seq!['\n'] =~= l + seq!['\n']);
    } else {
        assert(ls.push(l).drop_first() =~= ls.drop_first().push(l));
        assert(ls.push(l)[0] == ls[0]);
        lemma_unlines_push(ls.drop_first(), l);
        assert(unlines(ls.push(l)) == ls[0] + seq!['\n'] + (unlines(ls.drop_first()) + l
            + seq!['\n']));
        assert(ls[0] + seq!['\n'] + (unlines(ls.drop_first()) + l + seq!['\n']) =~= (ls[0]
            + seq!['\n'] + unlines(ls.drop_first())) + l + seq!['\n']);
    }
}

/// Joining distributes over concatenation of line lists.
pub proof fn lemma_unlines_concat(a: Seq<Seq<char>>, b: Seq<Seq<char>>)
    ensures
        unlines(a + b) == unlines(a) + unlines(b),
    decreases a.len(),
{
    if a.len() == 0 {
        assert(a + b =~= b);
        assert(unlines(a) + unlines(b) =~= unlines(b));
    } else {
        assert((a + b).drop_first() =~= a.drop_first() + b);
        assert((a + b)[0] == a[0]);
        lemma_unlines_concat(a.drop_first(), b);
        assert(unlines(a + b) == a[0] + seq!['\n'] + (unlines(a.drop_first()) + unlines(b)));
        assert(a[0] + seq!['\n'] + (unlines(a.drop_first()) + unlines(b)) =~= (a[0] + seq!['\n']
            + unlines(a.drop_first())) + unlines(b));
    }
}

// ---------------------------------------------------------------------------
// Leading blank space on a line
// ---------------------------------------------------------------------------
/// A line with its leading blank space removed.
pub open spec fn trim_start(l: Seq<char>) -> Seq<char>
    decreases l.len(),
{
    if l.len() > 0 && crate::text::spec_is_space(l[0]) {
        trim_start(l.drop_first())
    } else {
        l
    }
}

/// Characterisation of [`trim_start`] by the first non-space position.
pub proof fn lemma_trim_start_is(l: Seq<char>, k: int)
    requires
        0 <= k <= l.len(),
        forall|i: int| 0 <= i < k ==> crate::text::spec_is_space(l[i]),
        k < l.len() ==> !crate::text::spec_is_space(l[k]),
    ensures
        trim_start(l) == l.skip(k),
    decreases l.len(),
{
    if k == 0 {
        assert(l.skip(0) =~= l);
    } else {
        let rest = l.drop_first();
        assert(forall|i: int| 0 <= i < k - 1 ==> rest[i] == l[i + 1]);
        assert(k - 1 < rest.len() ==> rest[k - 1] == l[k]);
        lemma_trim_start_is(rest, k - 1);
        assert(rest.skip(k - 1) =~= l.skip(k));
    }
}

/// A line that starts with a non-space character trims to itself.
pub proof fn lemma_trim_start_noop(l: Seq<char>)
    requires
        l.len() > 0,
        !crate::text::spec_is_space(l[0]),
    ensures
        trim_start(l) == l,
{
}

// ---------------------------------------------------------------------------
// Line forms
// ---------------------------------------------------------------------------
/// A quoted key/value line: the key prefix, the escaped value, a closing
/// quote.
pub open spec fn kv_line(pre: Seq<char>, v: Seq<char>) -> Seq<char> {
    pre + esc(v) + seq!['"']
}

/// Reads a quoted key/value line back; `None` if the line is not of that
/// form.
pub open spec fn parse_kv(pre: Seq<char>, l: Seq<char>) -> Option<Seq<char>> {
    if l.len() >= pre.len() + 1 && l.subrange(0, pre.len() as int) == pre && l.last() == '"' {
        unesc(l.subrange(pre.len() as int, l.len() - 1))
    } else {
        None
    }
}

/// A history entry line carrying a payload: the tag prefix, the escaped
/// payload, and the closing `" },`.
pub open spec fn payload_line(pre: Seq<char>, v: Seq<char>) -> Seq<char> {
    pre + esc(v) + ("\" },")@
}

/// Reads a payload entry line back; `None` if the line is not of that form.
pub open spec fn parse_payload(pre: Seq<char>, l: Seq<char>) -> Option<Seq<char>> {
    if l.len() >= pre.len() + 4 && l.subrange(0, pre.len() as int) == pre && l.subrange(
        l.len() - 4,
        l.len() as int,
    ) == ("\" },")@ {
        unesc(l.subrange(pre.len() as int, l.len() - 4))
    } else {
        None
    }
}

/// The serialised form of one history entry, on its own line.
pub open spec fn entry_line(e: HistoryEntryView) -> Seq<char> {
    match e {
        HistoryEntryView::CommitCreated(h) => payload_line(("{ commit_created = \"")@, h),
        HistoryEntryView::Stuck(r) => payload_line(("{ stuck = \"")@, r),
        HistoryEntryView::Resolved(n) => payload_line(("{ resolved = \"")@, n),
        HistoryEntryView::Complete => ("\"complete\",")@,
    }
}

/// Reads a history entry line back; `None` if the line matches no entry
/// form.
pub open spec fn parse_entry(l: Seq<char>) -> Option<HistoryEntryView> {
    if parse_payload(("{ commit_created = \"")@, l) is Some {
        Some(HistoryEntryView::CommitCreated(parse_payload(("{ commit_created = \"")@, l)->0))
    } else if parse_payload(("{ stuck = \"")@, l) is Some {
        Some(HistoryEntryView::Stuck(parse_payload(("{ stuck = \"")@, l)->0))
    } else if parse_payload(("{ resolved = \"")@, l) is Some {
        Some(HistoryEntryView::Resolved(parse_payload(("{ resolved = \"")@, l)->0))
    } else if l == ("\"complete\",")@ {
        Some(HistoryEntryView::Complete)
    } else {
        None
    }
}

// ---------------------------------------------------------------------------
// Parsing: a state machine over non-blank lines
// ---------------------------------------------------------------------------
/// The three header fields of the document.
#[verifier::ext_equal]
pub struct HeaderFields {
    pub source: Seq<char>,
    pub remote: Seq<char>,
    pub cleaned: Seq<char>,
}

/// Parser state between lines: what has been read and what the next
/// non-blank line may be.
#[verifier::ext_equal]
pub enum ParseStage {
    /// Expecting the `source` line.
    ExpectSource,
    /// Expecting the `remote` line.
    ExpectRemote { source: Seq<char> },
    /// Expecting the `cleaned` line.
    ExpectCleaned { source: Seq<char>, remote: Seq<char> },
    /// Between commit blocks: expecting `[[commit]]` or the end of input.
    Body { header: HeaderFields, commits: Seq<CommitSpecView> },
    /// Just after `[[commit]]`: expecting the `message` line.
    ExpectMessage { header: HeaderFields, commits: Seq<CommitSpecView> },
    /// After `message`: expecting `hints`, `history = [`, `[[commit]]`, or
    /// the end of input.
    InCommit { header: HeaderFields, commits: Seq<CommitSpecView>, message: Seq<char> },
    /// After `hints`: expecting `history = [`, `[[commit]]`, or the end of
    /// input.
    AfterHints {
        header: HeaderFields,
        commits: Seq<CommitSpecView>,
        message: Seq<char>,
        hints: Seq<char>,
    },
    /// Inside a `history = [` block: expecting an entry line or `]`.
    InHistory {
        header: HeaderFields,
        commits: Seq<CommitSpecView>,
        message: Seq<char>,
        hints: Option<Seq<char>>,
        entries: Seq<HistoryEntryView>,
    },
}

/// The commit assembled from a finished block.
pub open spec fn built_commit(
    message: Seq<char>,
    hints: Option<Seq<char>>,
    entries: Seq<HistoryEntryView>,
) -> CommitSpecView {
    CommitSpecView { message: message, hints: hints, history: entries }
}

/// One parser transition on a non-blank, leading-trimmed line.
pub open spec fn sp_step(st: ParseStage, l: Seq<char>) -> Option<ParseStage> {
    match st {
        ParseStage::ExpectSource => match parse_kv(("source = \"")@, l) {
            Some(v) => Some(ParseStage::ExpectRemote { source: v }),
            None => None,
        },
        ParseStage::ExpectRemote { source } => match parse_kv(("remote = \"")@, l) {
            Some(v) => Some(ParseStage::ExpectCleaned { source, remote: v }),
            None => None,
        },
        ParseStage::ExpectCleaned { source, remote } => match parse_kv(("cleaned = \"")@, l) {
            Some(v) => Some(
                ParseStage::Body {
                    header: HeaderFields { source, remote, cleaned: v },
                    commits: Seq::empty(),
                },
            ),
            None => None,
        },
        ParseStage::Body { header, commits } => {
            if l == ("[[commit]]")@ {
                Some(ParseStage::ExpectMessage { header, commits })
            } else {
                None
            }
        },
        ParseStage::ExpectMessage { header, commits } => match parse_kv(("message = \"")@, l) {
            Some(v) => Some(ParseStage::InCommit { header, commits, message: v }),
            None => None,
        },
        ParseStage::InCommit { header, commits, message } => {
            if parse_kv(("hints = \"")@, l) is Some {
                Some(
                    ParseStage::AfterHints {
                        header,
                        commits,
                        message,
                        hints: parse_kv(("hints = \"")@, l)->0,
                    },
                )
            } else if l == ("history = [")@ {
                Some(
                    ParseStage::InHistory {
                        header,
                        commits,
                        message,
                        hints: None,
                        entries: Seq::empty(),
                    },
                )
            } else if l == ("[[commit]]")@ {
                Some(
                    ParseStage::ExpectMessage {
                        header,
                        commits: commits.push(built_commit(message, None, Seq::empty())),
                    },
                )
            } else {
                None
            }
        },
        ParseStage::AfterHints { header, commits, message, hints } => {
            if l == ("history = [")@ {
                Some(
                    ParseStage::InHistory {
                        header,
                        commits,
                        message,
                        hints: Some(hints),
                        entries: Seq::empty(),
                    },
                )
            } else if l == ("[[commit]]")@ {
                Some(
                    ParseStage::ExpectMessage {
                        header,
                        commits: commits.push(built_commit(message, Some(hints), Seq::empty())),
                    },
                )
            } else {
                None
            }
        },
        ParseStage::InHistory { header, commits, message, hints, entries } => {
            if l == ("]")@ {
                Some(
                    ParseStage::Body {
                        header,
                        commits: commits.push(built_commit(message, hints, entries)),
                    },
                )
            } else {
                match parse_entry(l) {
                    Some(e) => Some(
                        ParseStage::InHistory {
                            header,
                            commits,
                            message,
                            hints,
                            entries: entries.push(e),
                        },
                    ),
                    None => None,
                }
            }
        },
    }
}

/// Acceptance at the end of input: which states finish a document, and the
/// document they finish.
pub open spec fn sp_finish(st: ParseStage) -> Option<HistorySpecView> {
    match st {
        ParseStage::Body { header, commits } => Some(
            HistorySpecView {
                source: header.source,
                remote: header.remote,
                cleaned: header.cleaned,
                commits: commits,
            },
        ),
        ParseStage::InCommit { header, commits, message } => Some(
            HistorySpecView {
                source: header.source,
                remote: header.remote,
                cleaned: header.cleaned,
                commits: commits.push(built_commit(message, None, Seq::empty())),
            },
        ),
        ParseStage::AfterHints { header, commits, message, hints } => Some(
            HistorySpecView {
                source: header.source,
                remote: header.remote,
                cleaned: header.cleaned,
                commits: commits.push(built_commit(message, Some(hints), Seq::empty())),
            },
        ),
        _ => None,
    }
}

/// Runs the parser over the lines from position `i` in state `st`: blank
/// lines are skipped, each non-blank line is trimmed of leading space and
/// fed to [`sp_step`], and the end of input goes to [`sp_finish`].
pub open spec fn sp_run(ls: Seq<Seq<char>>, i: int, st: ParseStage) -> Option<HistorySpecView>
    decreases ls.len() - i,
    when 0 <= i <= ls.len()
{
    if i == ls.len() {
        sp_finish(st)
    } else {
        let b = trim_start(ls[i]);
        if b.len() == 0 {
            sp_run(ls, i + 1, st)
        } else {
            match sp_step(st, b) {
                Some(st2) => sp_run(ls, i + 1, st2),
                None => None,
            }
        }
    }
}

/// The meaning of a document text: split into lines and run the parser.
pub open spec fn sp_parse(t: Seq<char>) -> Option<HistorySpecView> {
    sp_run(to_lines(t), 0, ParseStage::ExpectSource)
}

// ---------------------------------------------------------------------------
// Serialisation
// ---------------------------------------------------------------------------
/// The lines of a history block's entries, one per entry.
pub open spec fn history_lines(es: Seq<HistoryEntryView>) -> Seq<Seq<char>>
    decreases es.len(),
{
    if es.len() == 0 {
        Seq::empty()
    } else {
        seq![entry_line(es[0])] + history_lines(es.drop_first())
    }
}

/// The lines of one commit block.
pub open spec fn commit_lines(c: CommitSpecView) -> Seq<Seq<char>> {
    seq![("[[commit]]")@, kv_line(("message = \"")@, c.message)] + (match c.hints {
        Some(h) => seq![kv_line(("hints = \"")@, h)],
        None => Seq::empty(),
    }) + (if c.history.len() > 0 {
        seq![("history = [")@] + history_lines(c.history) + seq![("]")@]
    } else {
        Seq::empty()
    })
}

/// The lines of all commit blocks, in order.
pub open spec fn commits_lines(cs: Seq<CommitSpecView>) -> Seq<Seq<char>>
    decreases cs.len(),
{
    if cs.len() == 0 {
        Seq::empty()
    } else {
        commit_lines(cs[0]) + commits_lines(cs.drop_first())
    }
}

/// The full line list of a document.
pub open spec fn ser_lines(d: HistorySpecView) -> Seq<Seq<char>> {
    seq![
        kv_line(("source = \"")@, d.source),
        kv_line(("remote = \"")@, d.remote),
        kv_line(("cleaned = \"")@, d.cleaned),
    ] + commits_lines(d.commits)
}

/// The serialised text of a document.
pub open spec fn sp_ser(d: HistorySpecView) -> Seq<char> {
    unlines(ser_lines(d))
}

/// Every string of a commit can stand in a quoted value.
pub open spec fn commit_encodable(c: CommitSpecView) -> bool {
    &&& encodable(c.message)
    &&& (c.hints matches Some(h) ==> encodable(h))
    &&& entries_encodable(c.history)
}

/// Every string of a document can stand in a quoted value.
pub open spec fn plan_encodable(d: HistorySpecView) -> bool {
    &&& encodable(d.source)
    &&& encodable(d.remote)
    &&& encodable(d.cleaned)
    &&& forall|i: int| 0 <= i < d.commits.len() ==> commit_encodable(#[trigger] d.commits[i])
}

/// The payload of one history entry is encodable.
pub open spec fn entry_encodable(e: HistoryEntryView) -> bool {
    match e {
        HistoryEntryView::CommitCreated(h) => encodable(h),
        HistoryEntryView::Stuck(r) => encodable(r),
        HistoryEntryView::Resolved(n) => encodable(n),
        HistoryEntryView::Complete => true,
    }
}

/// Every payload in a history sequence is encodable.
pub open spec fn entries_encodable(es: Seq<HistoryEntryView>) -> bool {
    forall|i: int| 0 <= i < es.len() ==> entry_encodable(#[trigger] es[i])
}

// ---------------------------------------------------------------------------
// Round trip: line-level lemmas
// ---------------------------------------------------------------------------
/// A key/value line parses back to the value it was built from.
pub proof fn lemma_parse_kv_round(pre: Seq<char>, v: Seq<char>)
    requires
        encodable(v),
        pre.len() > 0,
    ensures
        parse_kv(pre, kv_line(pre, v)) == Some(v),
{
    let l = kv_line(pre, v);
    lemma_unesc_esc(v);
    assert(l.len() == pre.len() + esc(v).len() + 1);
    assert(l.subrange(0, pre.len() as int) =~= pre);
    assert(l[l.len() - 1] == '"');
    assert(l.subrange(pre.len() as int, l.len() - 1) =~= esc(v));
}

/// A payload entry line parses back to the payload it was built from.
pub proof fn lemma_parse_payload_round(pre: Seq<char>, v: Seq<char>)
    requires
        encodable(v),
        pre.len() > 0,
    ensures
        parse_payload(pre, payload_line(pre, v)) == Some(v),
{
    let suf = ("\" },")@;
    reveal_strlit("\" },");
    let l = payload_line(pre, v);
    lemma_unesc_esc(v);
    assert(l.len() == pre.len() + esc(v).len() + 4);
    assert(l.subrange(0, pre.len() as int) =~= pre);
    assert(l.subrange(l.len() - 4, l.len() as int) =~= suf);
    assert(l.subrange(pre.len() as int, l.len() - 4) =~= esc(v));
}

/// A payload line built with one tag does not parse under a tag whose
/// prefix differs at some position.
pub proof fn lemma_payload_prefix_mismatch(prea: Seq<char>, preb: Seq<char>, v: Seq<char>, k: int)
    requires
        0 <= k < prea.len(),
        k < preb.len(),
        prea[k] != preb[k],
    ensures
        parse_payload(prea, payload_line(preb, v)) is None,
{
    let l = payload_line(preb, v);
    assert(l[k] == preb[k]);
    if l.len() >= prea.len() + 4 {
        assert(l.subrange(0, prea.len() as int)[k] == l[k]);
        assert(l.subrange(0, prea.len() as int) != prea);
    }
}

/// A history entry line parses back to the entry it was built from.
pub proof fn lemma_parse_entry_round(e: HistoryEntryView)
    requires
        entry_encodable(e),
    ensures
        parse_entry(entry_line(e)) == Some(e),
{
    let created = ("{ commit_created = \"")@;
    let stuck = ("{ stuck = \"")@;
    let resolved = ("{ resolved = \"")@;
    let complete = ("\"complete\",")@;
    reveal_strlit("{ commit_created = \"");
    reveal_strlit("{ stuck = \"");
    reveal_strlit("{ resolved = \"");
    reveal_strlit("\"complete\",");
    reveal_strlit("\" },");
    match e {
        HistoryEntryView::CommitCreated(h) => {
            lemma_parse_payload_round(created, h);
        },
        HistoryEntryView::Stuck(r) => {
            lemma_payload_prefix_mismatch(created, stuck, r, 2);
            lemma_parse_payload_round(stuck, r);
        },
        HistoryEntryView::Resolved(n) => {
            lemma_payload_prefix_mismatch(created, resolved, n, 2);
            lemma_payload_prefix_mismatch(stuck, resolved, n, 3);
            lemma_parse_payload_round(resolved, n);
        },
        HistoryEntryView::Complete => {
            assert(complete.len() == 11);
            assert(parse_payload(created, complete) is None);
            assert(parse_payload(stuck, complete) is None);
            assert(parse_payload(resolved, complete) is None);
        },
    }
}

/// An entry line is never the closing bracket line.
pub proof fn lemma_entry_line_not_close(e: HistoryEntryView)
    ensures
        entry_line(e) != ("]")@,
        entry_line(e).len() > 0,
        !crate::text::spec_is_space(entry_line(e)[0]),
    decreases 0int,
{
    reveal_strlit("{ commit_created = \"");
    reveal_strlit("{ stuck = \"");
    reveal_strlit("{ resolved = \"");
    reveal_strlit("\"complete\",");
    reveal_strlit("\" },");
    reveal_strlit("]");
    let close = ("]")@;
    assert(close.len() == 1);
    match e {
        HistoryEntryView::CommitCreated(h) => {
            assert(entry_line(e)[0] == '{');
            assert(entry_line(e).len() >= 24);
        },
        HistoryEntryView::Stuck(r) => {
            assert(entry_line(e)[0] == '{');
            assert(entry_line(e).len() >= 15);
        },
        HistoryEntryView::Resolved(n) => {
            assert(entry_line(e)[0] == '{');
            assert(entry_line(e).len() >= 18);
        },
        HistoryEntryView::Complete => {
            assert(entry_line(e)[0] == '"');
        },
    }
}

// ---------------------------------------------------------------------------
// Round trip: running the parser over serialised lines
// ---------------------------------------------------------------------------
/// The document assembled from a header and a commit list.
pub open spec fn built_doc(header: HeaderFields, commits: Seq<CommitSpecView>) -> HistorySpecView {
    HistorySpecView {
        source: header.source,
        remote: header.remote,
        cleaned: header.cleaned,
        commits: commits,
    }
}

/// A history block has one line per entry.
pub proof fn lemma_history_lines_len(es: Seq<HistoryEntryView>)
    ensures
        history_lines(es).len() == es.len(),
    decreases es.len(),
{
    if es.len() > 0 {
        lemma_history_lines_len(es.drop_first());
    }
}

/// Splitting a known tail of the line list: the first `x.len()` lines are
/// `x`, and what follows is `y`.
proof fn lemma_tail_split(ls: Seq<Seq<char>>, i: int, x: Seq<Seq<char>>, y: Seq<Seq<char>>)
    requires
        0 <= i <= ls.len(),
        ls.subrange(i, ls.len() as int) == x + y,
    ensures
        i + x.len() + y.len() == ls.len(),
        forall|k: int| 0 <= k < x.len() ==> ls[i + k] == x[k],
        ls.subrange(i + x.len(), ls.len() as int) == y,
{
    assert(ls.subrange(i, ls.len() as int).len() == ls.len() - i);
    assert forall|k: int| 0 <= k < x.len() implies ls[i + k] == x[k] by {
        assert(ls[i + k] == ls.subrange(i, ls.len() as int)[k]);
        assert((x + y)[k] == x[k]);
    }
    assert(ls.subrange(i + x.len(), ls.len() as int) =~= y) by {
        assert forall|k: int| 0 <= k < y.len() implies ls.subrange(
            i + x.len(),
            ls.len() as int,
        )[k] == y[k] by {
            assert(ls.subrange(i + x.len(), ls.len() as int)[k] == ls[i + x.len() + k]);
            assert(ls[i + x.len() + k] == ls.subrange(i, ls.len() as int)[x.len() + k]);
            assert((x + y)[x.len() + k] == y[k]);
        }
    }
}

/// A non-blank line whose first character is not blank space trims to
/// itself and is processed by [`sp_step`].
proof fn lemma_step_line(ls: Seq<Seq<char>>, i: int, st: ParseStage, st2: ParseStage)
    requires
        0 <= i < ls.len(),
        ls[i].len() > 0,
        !crate::text::spec_is_space(ls[i][0]),
        sp_step(st, ls[i]) == Some(st2),
    ensures
        sp_run(ls, i, st) == sp_run(ls, i + 1, st2),
{
    lemma_trim_start_noop(ls[i]);
}

/// Consuming the lines of a history block's entries extends the accumulated
/// entries and leaves the parser in the history state.
proof fn lemma_run_entries(
    ls: Seq<Seq<char>>,
    i: int,
    header: HeaderFields,
    commits: Seq<CommitSpecView>,
    message: Seq<char>,
    hints: Option<Seq<char>>,
    acc: Seq<HistoryEntryView>,
    es: Seq<HistoryEntryView>,
)
    requires
        0 <= i,
        i + es.len() <= ls.len(),
        ls.subrange(i, i + es.len()) == history_lines(es),
        entries_encodable(es),
    ensures
        sp_run(ls, i, ParseStage::InHistory { header, commits, message, hints, entries: acc })
            == sp_run(
            ls,
            i + es.len(),
            ParseStage::InHistory { header, commits, message, hints, entries: acc + es },
        ),
    decreases es.len(),
{
    lemma_history_lines_len(es);
    if es.len() == 0 {
        assert(acc + es =~= acc);
    } else {
        let e = es[0];
        let line = entry_line(e);
        assert(ls[i] == history_lines(es)[0]) by {
            assert(ls.subrange(i, i + es.len())[0] == ls[i]);
        }
        assert(history_lines(es)[0] == line);
        assert(entry_encodable(e));
        lemma_entry_line_not_close(e);
        lemma_parse_entry_round(e);
        let st = ParseStage::InHistory { header, commits, message, hints, entries: acc };
        let st2 = ParseStage::InHistory { header, commits, message, hints, entries: acc.push(e) };
        assert(sp_step(st, line) == Some(st2));
        lemma_step_line(ls, i, st, st2);
        let rest = es.drop_first();
        lemma_history_lines_len(rest);
        assert(ls.subrange(i + 1, i + 1 + rest.len()) =~= history_lines(rest)) by {
            assert forall|k: int| 0 <= k < rest.len() implies ls.subrange(
                i + 1,
                i + 1 + rest.len(),
            )[k] == history_lines(rest)[k] by {
                assert(ls.subrange(i + 1, i + 1 + rest.len())[k] == ls[i + 1 + k]);
                assert(ls[i + 1 + k] == ls.subrange(i, i + es.len())[1 + k]);
                assert(history_lines(es)[1 + k] == history_lines(rest)[k]);
            }
        }
        assert(entries_encodable(rest)) by {
            assert(forall|k: int|
                0 <= k < rest.len() ==> rest[k] == es[k + 1] && entry_encodable(
                    #[trigger] es[k + 1],
                ));
        }
        lemma_run_entries(ls, i + 1, header, commits, message, hints, acc.push(e), rest);
        assert(acc.push(e) + rest =~= acc + es);
    }
}

/// From the in-between state, the serialised lines of the remaining commits
/// parse to exactly those commits appended to the accumulated ones.
proof fn lemma_run_body(
    ls: Seq<Seq<char>>,
    i: int,
    header: HeaderFields,
    acc: Seq<CommitSpecView>,
    cs: Seq<CommitSpecView>,
)
    requires
        0 <= i <= ls.len(),
        ls.subrange(i, ls.len() as int) == commits_lines(cs),
        forall|k: int| 0 <= k < cs.len() ==> commit_encodable(#[trigger] cs[k]),
    ensures
        sp_run(ls, i, ParseStage::Body { header, commits: acc }) == Some(
            built_doc(header, acc + cs),
        ),
    decreases cs.len(), 1int,
{
    reveal_strlit("[[commit]]");
    if cs.len() == 0 {
        assert(commits_lines(cs) =~= Seq::<Seq<char>>::empty());
        assert(ls.subrange(i, ls.len() as int).len() == ls.len() - i);
        assert(i == ls.len());
        assert(acc + cs =~= acc);
    } else {
        let c = cs[0];
        let rest = cs.drop_first();
        let hdr = ("[[commit]]")@;
        assert(commits_lines(cs) == commit_lines(c) + commits_lines(rest));
        lemma_tail_split(ls, i, commit_lines(c), commits_lines(rest));
        assert(commit_lines(c)[0] == hdr);
        assert(ls[i] == hdr);
        assert(hdr.len() == 10 && hdr[0] == '[');
        let st = ParseStage::Body { header, commits: acc };
        let st2 = ParseStage::ExpectMessage { header, commits: acc };
        assert(sp_step(st, hdr) == Some(st2));
        lemma_step_line(ls, i, st, st2);
        assert(ls.subrange(i + 1, ls.len() as int) =~= commit_lines(c).drop_first()
            + commits_lines(rest)) by {
            assert forall|k: int| 0 <= k < ls.len() - i - 1 implies ls.subrange(
                i + 1,
                ls.len() as int,
            )[k] == (commit_lines(c).drop_first() + commits_lines(rest))[k] by {
                assert(ls.subrange(i + 1, ls.len() as int)[k] == ls[i + 1 + k]);
                assert(ls[i + 1 + k] == ls.subrange(i, ls.len() as int)[1 + k]);
                assert((commit_lines(c) + commits_lines(rest))[1 + k] == (
                commit_lines(c).drop_first() + commits_lines(rest))[k]);
            }
        }
        assert(commit_encodable(c));
        assert(forall|k: int| 0 <= k < rest.len() ==> rest[k] == cs[k + 1] && commit_encodable(
            #[trigger] cs[k + 1],
        ));
        lemma_run_msg(ls, i + 1, header, acc, c, rest);
        assert(acc.push(c) + rest =~= acc + cs);
    }
}

/// From just after a block's `[[commit]]` line, the rest of the serialised
/// lines parse to the block's commit followed by the remaining commits.
#[verifier::rlimit(100)]
proof fn lemma_run_msg(
    ls: Seq<Seq<char>>,
    i: int,
    header: HeaderFields,
    acc: Seq<CommitSpecView>,
    c: CommitSpecView,
    rest: Seq<CommitSpecView>,
)
    requires
        0 <= i <= ls.len(),
        ls.subrange(i, ls.len() as int) == commit_lines(c).drop_first() + commits_lines(rest),
        commit_encodable(c),
        forall|k: int| 0 <= k < rest.len() ==> commit_encodable(#[trigger] rest[k]),
    ensures
        sp_run(ls, i, ParseStage::ExpectMessage { header, commits: acc }) == Some(
            built_doc(header, acc.push(c) + rest),
        ),
    decreases rest.len() + 1, 0int,
{
    reveal_strlit("[[commit]]");
    reveal_strlit("message = \"");
    reveal_strlit("hints = \"");
    reveal_strlit("history = [");
    reveal_strlit("]");
    let hdr = ("[[commit]]")@;
    let msg_pre = ("message = \"")@;
    let hints_pre = ("hints = \"")@;
    let open = ("history = [")@;
    let close = ("]")@;
    let msg_line = kv_line(msg_pre, c.message);
    let hints_ls: Seq<Seq<char>> = match c.hints {
        Some(h) => seq![kv_line(hints_pre, h)],
        None => Seq::empty(),
    };
    let hist_ls: Seq<Seq<char>> = if c.history.len() > 0 {
        seq![open] + history_lines(c.history) + seq![close]
    } else {
        Seq::empty()
    };
    assert(commit_lines(c).drop_first() =~= seq![msg_line] + (hints_ls + hist_ls));
    assert(ls.subrange(i, ls.len() as int) == seq![msg_line] + (hints_ls + hist_ls)
        + commits_lines(rest)) by {
        assert(seq![msg_line] + (hints_ls + hist_ls) + commits_lines(rest) =~= (seq![msg_line] + (
        hints_ls + hist_ls)) + commits_lines(rest));
    }
    lemma_tail_split(ls, i, seq![msg_line] + (hints_ls + hist_ls), commits_lines(rest));
    // Step over the message line.
    assert(ls[i] == msg_line) by {
        assert((seq![msg_line] + (hints_ls + hist_ls))[0] == msg_line);
    }
    lemma_parse_kv_round(msg_pre, c.message);
    assert(msg_line[0] == 'm');
    assert(msg_line.len() > 0);
    let st_msg = ParseStage::ExpectMessage { header, commits: acc };
    let st_in = ParseStage::InCommit { header, commits: acc, message: c.message };
    assert(sp_step(st_msg, msg_line) == Some(st_in));
    lemma_step_line(ls, i, st_msg, st_in);
    // Step over the hints line, when present.
    let j = i + 1 + hints_ls.len();
    let st_j: ParseStage = match c.hints {
        Some(h) => ParseStage::AfterHints { header, commits: acc, message: c.message, hints: h },
        None => st_in,
    };
    match c.hints {
        Some(h) => {
            assert(ls[i + 1] == kv_line(hints_pre, h)) by {
                assert((seq![msg_line] + (hints_ls + hist_ls))[1] == (hints_ls + hist_ls)[0]);
            }
            lemma_parse_kv_round(hints_pre, h);
            assert(kv_line(hints_pre, h)[0] == 'h');
            assert(sp_step(st_in, kv_line(hints_pre, h)) == Some(st_j));
            lemma_step_line(ls, i + 1, st_in, st_j);
        },
        None => {},
    }
    // The history block, when present.
    let n = c.history.len() as int;
    lemma_history_lines_len(c.history);
    if c.history.len() > 0 {
        assert(forall|k: int|
            0 <= k < hist_ls.len() ==> ls[j + k] == #[trigger] hist_ls[k]) by {
            assert(forall|k: int|
                0 <= k < hist_ls.len() ==> (seq![msg_line] + (hints_ls + hist_ls))[1
                    + hints_ls.len() + k] == #[trigger] hist_ls[k]);
        }
        assert(ls[j] == open) by {
            assert(hist_ls[0] == open);
        }
        let st_hist = ParseStage::InHistory {
            header,
            commits: acc,
            message: c.message,
            hints: c.hints,
            entries: Seq::empty(),
        };
        assert(open.len() == 11 && open[0] == 'h');
        match c.hints {
            Some(h) => {
                assert(parse_kv(hints_pre, open) is None) by {
                    assert(open[open.len() - 1] == '[');
                }
                assert(sp_step(st_j, open) == Some(st_hist));
            },
            None => {
                assert(parse_kv(hints_pre, open) is None) by {
                    assert(open[open.len() - 1] == '[');
                }
                assert(open != hdr);
                assert(sp_step(st_j, open) == Some(st_hist));
            },
        }
        lemma_step_line(ls, j, st_j, st_hist);
        assert(ls.subrange(j + 1, j + 1 + n) =~= history_lines(c.history)) by {
            assert forall|k: int| 0 <= k < n implies ls.subrange(j + 1, j + 1 + n)[k]
                == history_lines(c.history)[k] by {
                assert(ls.subrange(j + 1, j + 1 + n)[k] == ls[j + 1 + k]);
                assert(hist_ls[1 + k] == history_lines(c.history)[k]);
            }
        }
        assert(entries_encodable(c.history));
        lemma_run_entries(
            ls,
            j + 1,
            header,
            acc,
            c.message,
            c.hints,
            Seq::empty(),
            c.history,
        );
        let st_full = ParseStage::InHistory {
            header,
            commits: acc,
            message: c.message,
            hints: c.hints,
            entries: Seq::empty() + c.history,
        };
        assert(Seq::empty() + c.history =~= c.history);
        assert(ls[j + 1 + n] == close) by {
            assert(hist_ls[1 + n] == close);
        }
        assert(close.len() == 1 && close[0] == ']');
        let st_body = ParseStage::Body { header, commits: acc.push(c) };
        assert(sp_step(st_full, close) == Some(st_body)) by {
            assert(built_commit(c.message, c.hints, c.history) =~= c);
        }
        lemma_step_line(ls, j + 1 + n, st_full, st_body);
        assert(ls.subrange(j + n + 2, ls.len() as int) == commits_lines(rest));
        lemma_run_body(ls, j + n + 2, header, acc.push(c), rest);
        assert(acc.push(c) + rest == acc.push(c) + rest);
    } else {
        // No history block: the next line is the next commit's header, or
        // the input ends here.
        assert(ls.subrange(j, ls.len() as int) == commits_lines(rest));
        if rest.len() == 0 {
            assert(commits_lines(rest) =~= Seq::<Seq<char>>::empty());
            assert(j == ls.len());
            assert(c.history =~= Seq::<HistoryEntryView>::empty());
            match c.hints {
                Some(h) => {
                    assert(sp_finish(st_j) == Some(
                        built_doc(header, acc.push(built_commit(c.message, Some(h), Seq::empty()))),
                    ));
                    assert(built_commit(c.message, Some(h), Seq::empty()) =~= c);
                    assert(acc.push(c) + rest =~= acc.push(c));
                },
                None => {
                    assert(built_commit(c.message, None, Seq::empty()) =~= c);
                    assert(acc.push(c) + rest =~= acc.push(c));
                },
            }
        } else {
            let c2 = rest[0];
            let rest2 = rest.drop_first();
            assert(commits_lines(rest) == commit_lines(c2) + commits_lines(rest2));
            lemma_tail_split(ls, j, commit_lines(c2), commits_lines(rest2));
            assert(ls[j] == hdr) by {
                assert(commit_lines(c2)[0] == hdr);
            }
            assert(hdr[0] == '[' && hdr.len() == 10);
            let st_msg2 = ParseStage::ExpectMessage { header, commits: acc.push(c) };
            assert(parse_kv(hints_pre, hdr) is None) by {
                assert(hdr[hdr.len() - 1] == ']');
            }
            assert(hdr != open);
            match c.hints {
                Some(h) => {
                    assert(sp_step(st_j, hdr) == Some(
                        ParseStage::ExpectMessage {
                            header,
                            commits: acc.push(built_commit(c.message, Some(h), Seq::empty())),
                        },
                    ));
                    assert(built_commit(c.message, Some(h), Seq::empty()) =~= c) by {
                        assert(c.history =~= Seq::<HistoryEntryView>::empty());
                    }
                },
                None => {
                    assert(built_commit(c.message, None, Seq::empty()) =~= c) by {
                        assert(c.history =~= Seq::<HistoryEntryView>::empty());
                    }
                    assert(sp_step(st_j, hdr) == Some(st_msg2));
                },
            }
            lemma_step_line(ls, j, st_j, st_msg2);
            assert(ls.subrange(j + 1, ls.len() as int) =~= commit_lines(c2).drop_first()
                + commits_lines(rest2)) by {
                assert forall|k: int| 0 <= k < ls.len() - j - 1 implies ls.subrange(
                    j + 1,
                    ls.len() as int,
                )[k] == (commit_lines(c2).drop_first() + commits_lines(rest2))[k] by {
                    assert(ls.subrange(j + 1, ls.len() as int)[k] == ls[j + 1 + k]);
                    assert(ls[j + 1 + k] == ls.subrange(j, ls.len() as int)[1 + k]);
                    assert((commit_lines(c2) + commits_lines(rest2))[1 + k] == (commit_lines(
                        c2,
                    ).drop_first() + commits_lines(rest2))[k]);
                }
            }
            assert(commit_encodable(c2));
            assert(forall|k: int|
                0 <= k < rest2.len() ==> rest2[k] == rest[k + 1] && commit_encodable(
                    #[trigger] rest[k + 1],
                ));
            lemma_run_msg(ls, j + 1, header, acc.push(c), c2, rest2);
            assert(acc.push(c).push(c2) + rest2 =~= acc.push(c) + rest);
        }
    }
}

// ---------------------------------------------------------------------------
// Serialised lines stay on their lines
// ---------------------------------------------------------------------------
/// Every line in a list is newline-free.
pub open spec fn no_nl_lines(ls: Seq<Seq<char>>) -> bool {
    forall|i: int| 0 <= i < ls.len() ==> no_newline(#[trigger] ls[i])
}

/// Newline-freedom is preserved by concatenation of line lists.
proof fn lemma_no_nl_concat(a: Seq<Seq<char>>, b: Seq<Seq<char>>)
    requires
        no_nl_lines(a),
        no_nl_lines(b),
    ensures
        no_nl_lines(a + b),
{
    assert forall|i: int| 0 <= i < (a + b).len() implies no_newline(#[trigger] (a + b)[i]) by {
        if i < a.len() {
            assert((a + b)[i] == a[i]);
        } else {
            assert((a + b)[i] == b[i - a.len()]);
        }
    }
}

/// A quoted key/value line contains no newline when its prefix does not.
proof fn lemma_kv_line_no_nl(pre: Seq<char>, v: Seq<char>)
    requires
        encodable(v),
        no_newline(pre),
    ensures
        no_newline(kv_line(pre, v)),
{
    lemma_esc_no_newline(v);
    let l = kv_line(pre, v);
    assert forall|i: int| 0 <= i < l.len() implies l[i] != '\n' by {
        if i < pre.len() {
            assert(l[i] == pre[i]);
        } else if i < pre.len() + esc(v).len() {
            assert(l[i] == esc(v)[i - pre.len()]);
        } else {
            assert(l[i] == '"');
        }
    }
}

/// A history entry line contains no newline.
proof fn lemma_entry_line_no_nl(e: HistoryEntryView)
    requires
        entry_encodable(e),
    ensures
        no_newline(entry_line(e)),
{
    reveal_strlit("{ commit_created = \"");
    reveal_strlit("{ stuck = \"");
    reveal_strlit("{ resolved = \"");
    reveal_strlit("\"complete\",");
    reveal_strlit("\" },");
    let suf = ("\" },")@;
    assert(forall|i: int| 0 <= i < suf.len() ==> suf[i] != '\n');
    match e {
        HistoryEntryView::CommitCreated(h) => {
            lemma_payload_line_no_nl(("{ commit_created = \"")@, h);
        },
        HistoryEntryView::Stuck(r) => {
            lemma_payload_line_no_nl(("{ stuck = \"")@, r);
        },
        HistoryEntryView::Resolved(n) => {
            lemma_payload_line_no_nl(("{ resolved = \"")@, n);
        },
        HistoryEntryView::Complete => {
            assert(forall|i: int|
                0 <= i < ("\"complete\",")@.len() ==> ("\"complete\",")@[i] != '\n');
        },
    }
}

/// A payload line contains no newline when its tag prefix does not.
proof fn lemma_payload_line_no_nl(pre: Seq<char>, v: Seq<char>)
    requires
        encodable(v),
        no_newline(pre),
        no_newline(("\" },")@),
    ensures
        no_newline(payload_line(pre, v)),
{
    lemma_esc_no_newline(v);
    let suf = ("\" },")@;
    let l = payload_line(pre, v);
    assert forall|i: int| 0 <= i < l.len() implies l[i] != '\n' by {
        if i < pre.len() {
            assert(l[i] == pre[i]);
        } else if i < pre.len() + esc(v).len() {
            assert(l[i] == esc(v)[i - pre.len()]);
        } else {
            assert(l[i] == suf[i - pre.len() - esc(v).len()]);
        }
    }
}

/// Every line of a history block is newline-free.
proof fn lemma_history_lines_no_nl(es: Seq<HistoryEntryView>)
    requires
        entries_encodable(es),
    ensures
        no_nl_lines(history_lines(es)),
    decreases es.len(),
{
    if es.len() > 0 {
        lemma_entry_line_no_nl(es[0]);
        assert(entries_encodable(es.drop_first())) by {
            assert(forall|k: int|
                0 <= k < es.len() - 1 ==> es.drop_first()[k] == es[k + 1] && entry_encodable(
                    #[trigger] es[k + 1],
                ));
        }
        lemma_history_lines_no_nl(es.drop_first());
        lemma_no_nl_concat(seq![entry_line(es[0])], history_lines(es.drop_first()));
    }
}

/// Every line of a commit block is newline-free.
proof fn lemma_commit_lines_no_nl(c: CommitSpecView)
    requires
        commit_encodable(c),
    ensures
        no_nl_lines(commit_lines(c)),
{
    reveal_strlit("[[commit]]");
    reveal_strlit("message = \"");
    reveal_strlit("hints = \"");
    reveal_strlit("history = [");
    reveal_strlit("]");
    lemma_kv_line_no_nl(("message = \"")@, c.message);
    let head = seq![("[[commit]]")@, kv_line(("message = \"")@, c.message)];
    assert(no_nl_lines(head));
    let hints_ls: Seq<Seq<char>> = match c.hints {
        Some(h) => seq![kv_line(("hints = \"")@, h)],
        None => Seq::empty(),
    };
    match c.hints {
        Some(h) => {
            lemma_kv_line_no_nl(("hints = \"")@, h);
        },
        None => {},
    }
    assert(no_nl_lines(hints_ls));
    let hist_ls: Seq<Seq<char>> = if c.history.len() > 0 {
        seq![("history = [")@] + history_lines(c.history) + seq![("]")@]
    } else {
        Seq::empty()
    };
    if c.history.len() > 0 {
        lemma_history_lines_no_nl(c.history);
        lemma_no_nl_concat(seq![("history = [")@], history_lines(c.history));
        lemma_no_nl_concat(seq![("history = [")@] + history_lines(c.history), seq![("]")@]);
    }
    assert(no_nl_lines(hist_ls));
    lemma_no_nl_concat(head, hints_ls);
    lemma_no_nl_concat(head + hints_ls, hist_ls);
}

/// Every line of the serialised commit list is newline-free.
proof fn lemma_commits_lines_no_nl(cs: Seq<CommitSpecView>)
    requires
        forall|k: int| 0 <= k < cs.len() ==> commit_encodable(#[trigger] cs[k]),
    ensures
        no_nl_lines(commits_lines(cs)),
    decreases cs.len(),
{
    if cs.len() > 0 {
        lemma_commit_lines_no_nl(cs[0]);
        assert(forall|k: int|
            0 <= k < cs.len() - 1 ==> cs.drop_first()[k] == cs[k + 1] && commit_encodable(
                #[trigger] cs[k + 1],
            ));
        lemma_commits_lines_no_nl(cs.drop_first());
        lemma_no_nl_concat(commit_lines(cs[0]), commits_lines(cs.drop_first()));
    }
}

/// Every line of a serialised document is newline-free.
proof fn lemma_ser_lines_no_nl(d: HistorySpecView)
    requires
        plan_encodable(d),
    ensures
        no_nl_lines(ser_lines(d)),
{
    reveal_strlit("source = \"");
    reveal_strlit("remote = \"");
    reveal_strlit("cleaned = \"");
    lemma_kv_line_no_nl(("source = \"")@, d.source);
    lemma_kv_line_no_nl(("remote = \"")@, d.remote);
    lemma_kv_line_no_nl(("cleaned = \"")@, d.cleaned);
    lemma_commits_lines_no_nl(d.commits);
    let head = seq![
        kv_line(("source = \"")@, d.source),
        kv_line(("remote = \"")@, d.remote),
        kv_line(("cleaned = \"")@, d.cleaned),
    ];
    assert(no_nl_lines(head));
    lemma_no_nl_concat(head, commits_lines(d.commits));
}

// ---------------------------------------------------------------------------
// The round-trip law
// ---------------------------------------------------------------------------
/// Serialising an encodable document and parsing the result yields the
/// document unchanged.
pub proof fn lemma_document_round_trip(d: HistorySpecView)
    requires
        plan_encodable(d),
    ensures
        sp_parse(sp_ser(d)) == Some(d),
{
    reveal_strlit("source = \"");
    reveal_strlit("remote = \"");
    reveal_strlit("cleaned = \"");
    let ls = ser_lines(d);
    lemma_ser_lines_no_nl(d);
    lemma_to_lines_unlines(ls);
    assert(to_lines(sp_ser(d)) == ls);
    let src_pre = ("source = \"")@;
    let rem_pre = ("remote = \"")@;
    let cln_pre = ("cleaned = \"")@;
    let head = seq![kv_line(src_pre, d.source), kv_line(rem_pre, d.remote), kv_line(
        cln_pre,
        d.cleaned,
    )];
    assert(ls.subrange(0, ls.len() as int) =~= ls);
    lemma_tail_split(ls, 0, head, commits_lines(d.commits));
    assert(ls[0] == kv_line(src_pre, d.source));
    assert(ls[1] == kv_line(rem_pre, d.remote));
    assert(ls[2] == kv_line(cln_pre, d.cleaned));
    lemma_parse_kv_round(src_pre, d.source);
    lemma_parse_kv_round(rem_pre, d.remote);
    lemma_parse_kv_round(cln_pre, d.cleaned);
    let hd = HeaderFields { source: d.source, remote: d.remote, cleaned: d.cleaned };
    let st1 = ParseStage::ExpectRemote { source: d.source };
    let st2 = ParseStage::ExpectCleaned { source: d.source, remote: d.remote };
    let st3 = ParseStage::Body { header: hd, commits: Seq::empty() };
    assert(kv_line(src_pre, d.source)[0] == 's');
    assert(sp_step(ParseStage::ExpectSource, ls[0]) == Some(st1));
    lemma_step_line(ls, 0, ParseStage::ExpectSource, st1);
    assert(kv_line(rem_pre, d.remote)[0] == 'r');
    assert(sp_step(st1, ls[1]) == Some(st2));
    lemma_step_line(ls, 1, st1, st2);
    assert(kv_line(cln_pre, d.cleaned)[0] == 'c');
    assert(sp_step(st2, ls[2]) == Some(st3));
    lemma_step_line(ls, 2, st2, st3);
    lemma_run_body(ls, 3, hd, Seq::empty(), d.commits);
    assert(Seq::empty() + d.commits =~= d.commits);
    assert(built_doc(hd, d.commits) =~= d);
}

// ---------------------------------------------------------------------------
// Parsed documents are encodable
// ---------------------------------------------------------------------------
/// Every string accumulated in a parser state is encodable.
pub open spec fn stage_encodable(st: ParseStage) -> bool {
    match st {
        ParseStage::ExpectSource => true,
        ParseStage::ExpectRemote { source } => encodable(source),
        ParseStage::ExpectCleaned { source, remote } => encodable(source) && encodable(remote),
        ParseStage::Body { header, commits } => header_encodable(header) && all_commits_encodable(
            commits,
        ),
        ParseStage::ExpectMessage { header, commits } => header_encodable(header)
            && all_commits_encodable(commits),
        ParseStage::InCommit { header, commits, message } => header_encodable(header)
            && all_commits_encodable(commits) && encodable(message),
        ParseStage::AfterHints { header, commits, message, hints } => header_encodable(header)
            && all_commits_encodable(commits) && encodable(message) && encodable(hints),
        ParseStage::InHistory { header, commits, message, hints, entries } => header_encodable(
            header,
        ) && all_commits_encodable(commits) && encodable(message) && (hints matches Some(h)
            ==> encodable(h)) && entries_encodable(entries),
    }
}

/// The three header fields are encodable.
pub open spec fn header_encodable(h: HeaderFields) -> bool {
    encodable(h.source) && encodable(h.remote) && encodable(h.cleaned)
}

/// Every commit in a list is encodable.
pub open spec fn all_commits_encodable(cs: Seq<CommitSpecView>) -> bool {
    forall|k: int| 0 <= k < cs.len() ==> commit_encodable(#[trigger] cs[k])
}

/// One parser transition only accumulates encodable strings.
proof fn lemma_step_encodable(st: ParseStage, l: Seq<char>)
    requires
        stage_encodable(st),
        sp_step(st, l) is Some,
    ensures
        stage_encodable(sp_step(st, l)->0),
{
    match st {
        ParseStage::ExpectSource => {
            lemma_parse_kv_encodable(("source = \"")@, l);
        },
        ParseStage::ExpectRemote { source } => {
            lemma_parse_kv_encodable(("remote = \"")@, l);
        },
        ParseStage::ExpectCleaned { source, remote } => {
            lemma_parse_kv_encodable(("cleaned = \"")@, l);
        },
        ParseStage::Body { .. } => {},
        ParseStage::ExpectMessage { .. } => {
            lemma_parse_kv_encodable(("message = \"")@, l);
        },
        ParseStage::InCommit { header, commits, message } => {
            if parse_kv(("hints = \"")@, l) is Some {
                lemma_parse_kv_encodable(("hints = \"")@, l);
            } else if l == ("[[commit]]")@ {
                lemma_commits_push_encodable(
                    commits,
                    built_commit(message, None, Seq::empty()),
                );
            }
        },
        ParseStage::AfterHints { header, commits, message, hints } => {
            if l == ("[[commit]]")@ {
                lemma_commits_push_encodable(
                    commits,
                    built_commit(message, Some(hints), Seq::empty()),
                );
            }
        },
        ParseStage::InHistory { header, commits, message, hints, entries } => {
            if l == ("]")@ {
                lemma_commits_push_encodable(commits, built_commit(message, hints, entries));
            } else {
                lemma_parse_entry_encodable(l);
                let e = parse_entry(l)->0;
                assert(entries_encodable(entries.push(e))) by {
                    assert(forall|k: int|
                        0 <= k < entries.len() ==> entries.push(e)[k] == #[trigger] entries[k]);
                    assert(entries.push(e)[entries.len() as int] == e);
                }
            }
        },
    }
}

/// A value read from a key/value line is encodable.
proof fn lemma_parse_kv_encodable(pre: Seq<char>, l: Seq<char>)
    requires
        parse_kv(pre, l) is Some,
    ensures
        encodable(parse_kv(pre, l)->0),
{
    lemma_unesc_encodable(l.subrange(pre.len() as int, l.len() - 1));
}

/// An entry read from an entry line has an encodable payload.
proof fn lemma_parse_entry_encodable(l: Seq<char>)
    requires
        parse_entry(l) is Some,
    ensures
        entry_encodable(parse_entry(l)->0),
{
    if parse_payload(("{ commit_created = \"")@, l) is Some {
        lemma_unesc_encodable(l.subrange(("{ commit_created = \"")@.len() as int, l.len() - 4));
    } else if parse_payload(("{ stuck = \"")@, l) is Some {
        lemma_unesc_encodable(l.subrange(("{ stuck = \"")@.len() as int, l.len() - 4));
    } else if parse_payload(("{ resolved = \"")@, l) is Some {
        lemma_unesc_encodable(l.subrange(("{ resolved = \"")@.len() as int, l.len() - 4));
    }
}

/// Pushing an encodable commit keeps the commit list encodable.
proof fn lemma_commits_push_encodable(cs: Seq<CommitSpecView>, c: CommitSpecView)
    requires
        all_commits_encodable(cs),
        commit_encodable(c),
    ensures
        all_commits_encodable(cs.push(c)),
{
    assert(forall|k: int| 0 <= k < cs.len() ==> cs.push(c)[k] == #[trigger] cs[k]);
    assert(cs.push(c)[cs.len() as int] == c);
}

/// A document accepted at the end of input from an encodable state is
/// encodable.
proof fn lemma_finish_encodable(st: ParseStage)
    requires
        stage_encodable(st),
        sp_finish(st) is Some,
    ensures
        plan_encodable(sp_finish(st)->0),
{
    match st {
        ParseStage::Body { .. } => {},
        ParseStage::InCommit { header, commits, message } => {
            lemma_commits_push_encodable(commits, built_commit(message, None, Seq::empty()));
        },
        ParseStage::AfterHints { header, commits, message, hints } => {
            lemma_commits_push_encodable(
                commits,
                built_commit(message, Some(hints), Seq::empty()),
            );
        },
        _ => {},
    }
}

/// Any document the parser accepts is encodable.
proof fn lemma_run_encodable(ls: Seq<Seq<char>>, i: int, st: ParseStage)
    requires
        0 <= i <= ls.len(),
        stage_encodable(st),
        sp_run(ls, i, st) is Some,
    ensures
        plan_encodable(sp_run(ls, i, st)->0),
    decreases ls.len() - i,
{
    if i == ls.len() {
        lemma_finish_encodable(st);
    } else {
        let b = trim_start(ls[i]);
        if b.len() == 0 {
            lemma_run_encodable(ls, i + 1, st);
        } else {
            lemma_step_encodable(st, b);
            lemma_run_encodable(ls, i + 1, sp_step(st, b)->0);
        }
    }
}

/// A document read from any text re-serialises, and the re-serialised text
/// parses back to the same document.
pub proof fn lemma_parse_then_serialise(t: Seq<char>)
    requires
        sp_parse(t) is Some,
    ensures
        plan_encodable(sp_parse(t)->0),
        sp_parse(sp_ser(sp_parse(t)->0)) == sp_parse(t),
{
    lemma_run_encodable(to_lines(t), 0, ParseStage::ExpectSource);
    lemma_document_round_trip(sp_parse(t)->0);
}

// ---------------------------------------------------------------------------
// Executable escaping
// ---------------------------------------------------------------------------
/// Executable test for [`encodable_char`].
#[verifier::when_used_as_spec(encodable_char)]
pub fn encodable_char_exec(c: char) -> (r: bool)
    ensures
        r == encodable_char(c),
{
    c as u32 >= 0x20 || c == '\n' || c == '\r' || c == '\t'
}

/// Whether every character of `v` may stand in a quoted value.
pub fn is_encodable(v: &Vec<char>) -> (r: bool)
    ensures
        r == encodable(v@),
{
    let mut i: usize = 0;
    while i < v.len()
        invariant
            0 <= i <= v@.len(),
            forall|k: int| 0 <= k < i ==> encodable_char(v@[k]),
        decreases v@.len() - i,
    {
        if !encodable_char_exec(v[i]) {
            return false;
        }
        i += 1;
    }
    true
}

/// Appends the escaped form of `v` to `out`.
fn push_escaped(out: &mut Vec<char>, v: &Vec<char>)
    ensures
        final(out)@ == old(out)@ + esc(v@),
{
    let mut i: usize = 0;
    while i < v.len()
        invariant
            0 <= i <= v@.len(),
            out@ == old(out)@ + esc(v@.subrange(0, i as int)),
        decreases v@.len() - i,
    {
        let c = v[i];
        if c == '\\' {
            out.push('\\');
            out.push('\\');
        } else if c == '"' {
            out.push('\\');
            out.push('"');
        } else if c == '\n' {
            out.push('\\');
            out.push('n');
        } else if c == '\r' {
            out.push('\\');
            out.push('r');
        } else if c == '\t' {
            out.push('\\');
            out.push('t');
        } else {
            out.push(c);
        }
        proof {
            lemma_esc_push(v@.subrange(0, i as int), c);
            assert(v@.subrange(0, i + 1) =~= v@.subrange(0, i as int).push(v@[i as int]));
            assert(out@ =~= old(out)@ + esc(v@.subrange(0, i + 1)));
        }
        i += 1;
    }
    proof {
        assert(v@.subrange(0, v@.len() as int) =~= v@);
    }
}

/// The character an escape letter stands for, if recognised.
#[verifier::when_used_as_spec(unesc_char)]
fn unescape_char(c: char) -> (r: Option<char>)
    ensures
        r == unesc_char(c),
{
    if c == '\\' {
        Some('\\')
    } else if c == '"' {
        Some('"')
    } else if c == 'n' {
        Some('\n')
    } else if c == 'r' {
        Some('\r')
    } else if c == 't' {
        Some('\t')
    } else {
        None
    }
}

/// Executable test for [`plain_char`].
#[verifier::when_used_as_spec(plain_char)]
fn plain_char_exec(c: char) -> (r: bool)
    ensures
        r == plain_char(c),
{
    c as u32 >= 0x20 && c != '\\' && c != '"'
}

/// Unescapes `v[from..to]`, mirroring [`unesc`].
fn unescape_range(v: &Vec<char>, from: usize, to: usize) -> (r: Option<Vec<char>>)
    requires
        from <= to <= v@.len(),
    ensures
        match r {
            Some(x) => unesc(v@.subrange(from as int, to as int)) == Some(x@),
            None => unesc(v@.subrange(from as int, to as int)) is None,
        },
{
    let ghost whole = v@.subrange(from as int, to as int);
    let mut out: Vec<char> = Vec::new();
    let mut i: usize = from;
    while i < to
        invariant
            from <= i <= to <= v@.len(),
            unesc(whole) == match unesc(v@.subrange(i as int, to as int)) {
                Some(t) => Some(out@ + t),
                None => None::<Seq<char>>,
            },
            whole == v@.subrange(from as int, to as int),
        decreases to - i,
    {
        let ghost rem = v@.subrange(i as int, to as int);
        let c = v[i];
        proof {
            assert(rem[0] == c);
        }
        if c == '\\' {
            if i + 1 >= to {
                proof {
                    assert(rem.len() == 1);
                    assert(unesc(rem) is None);
                }
                return None;
            }
            let c2 = v[i + 1];
            proof {
                assert(rem[1] == c2);
            }
            match unescape_char(c2) {
                Some(u) => {
                    let ghost out0 = out@;
                    out.push(u);
                    proof {
                        assert(rem.skip(2) =~= v@.subrange(i as int + 2, to as int));
                        assert(unesc(rem) == match unesc(rem.skip(2)) {
                            Some(t) => Some(seq![u] + t),
                            None => None::<Seq<char>>,
                        });
                        assert(unesc(whole) == match unesc(v@.subrange(i as int + 2, to as int)) {
                            Some(t) => Some(out@ + t),
                            None => None::<Seq<char>>,
                        }) by {
                            match unesc(v@.subrange(i as int + 2, to as int)) {
                                Some(t) => {
                                    assert(out0 + (seq![u] + t) =~= out@ + t);
                                },
                                None => {},
                            }
                        }
                    }
                    i += 2;
                },
                None => {
                    proof {
                        assert(unesc(rem) is None);
                    }
                    return None;
                },
            }
        } else if plain_char_exec(c) {
            let ghost out0 = out@;
            out.push(c);
            proof {
                assert(rem.drop_first() =~= v@.subrange(i as int + 1, to as int));
                assert(unesc(rem) == match unesc(rem.drop_first()) {
                    Some(t) => Some(seq![c] + t),
                    None => None::<Seq<char>>,
                });
                assert(unesc(whole) == match unesc(v@.subrange(i as int + 1, to as int)) {
                    Some(t) => Some(out@ + t),
                    None => None::<Seq<char>>,
                }) by {
                    match unesc(v@.subrange(i as int + 1, to as int)) {
                        Some(t) => {
                            assert(out0 + (seq![c] + t) =~= out@ + t);
                        },
                        None => {},
                    }
                }
            }
            i += 1;
        } else {
            proof {
                assert(unesc(rem) is None);
            }
            return None;
        }
    }
    proof {
        assert(v@.subrange(to as int, to as int) =~= Seq::<char>::empty());
        assert(unesc(v@.subrange(to as int, to as int)) == Some(Seq::<char>::empty()));
        assert(out@ + Seq::<char>::empty() =~= out@);
    }
    Some(out)
}

// ---------------------------------------------------------------------------
// Executable line handling
// ---------------------------------------------------------------------------
/// The mathematical lines of a vector of line buffers.
pub open spec fn lines_view(r: Seq<Vec<char>>) -> Seq<Seq<char>> {
    r.map_values(|l: Vec<char>| l@)
}

/// Splits text into lines, mirroring [`to_lines`].
fn split_into_lines(v: &Vec<char>) -> (r: Vec<Vec<char>>)
    ensures
        lines_view(r@) == to_lines(v@),
{
    let mut acc: Vec<Vec<char>> = Vec::new();
    let mut start: usize = 0;
    proof {
        assert(v@.skip(0) =~= v@);
        assert(lines_view(acc@) + to_lines(v@) =~= to_lines(v@));
    }
    while start < v.len()
        invariant
            0 <= start <= v@.len(),
            lines_view(acc@) + to_lines(v@.skip(start as int)) == to_lines(v@),
        decreases v@.len() - start,
    {
        let ghost acc0 = acc@;
        let ghost s = v@.skip(start as int);
        let mut k: usize = start;
        while k < v.len() && v[k] != '\n'
            invariant
                start <= k <= v@.len(),
                forall|j: int| start <= j < k ==> v@[j] != '\n',
            decreases v@.len() - k,
        {
            k += 1;
        }
        proof {
            assert(forall|j: int| 0 <= j < s.len() ==> s[j] == v@[start + j]);
            assert(k < v@.len() ==> s[k - start] == '\n');
            lemma_first_newline_is(s, k - start as int);
        }
        let line = copy_range(v, start, k);
        acc.push(line);
        proof {
            assert(lines_view(acc@) =~= lines_view(acc0).push(line@));
        }
        if k < v.len() {
            proof {
                assert(line@ =~= s.subrange(0, k - start as int));
                assert(s.skip(k - start as int + 1) =~= v@.skip(k as int + 1));
                assert(to_lines(s) == seq![line@] + to_lines(v@.skip(k as int + 1)));
                assert(lines_view(acc0).push(line@) + to_lines(v@.skip(k as int + 1)) =~= lines_view(
                    acc0,
                ) + to_lines(s));
            }
            start = k + 1;
        } else {
            proof {
                assert(line@ =~= s);
                assert(first_newline(s) == s.len());
                assert(to_lines(s) == seq![s]);
                assert(v@.skip(v@.len() as int) =~= Seq::<char>::empty());
                assert(lines_view(acc0).push(line@) + to_lines(v@.skip(v@.len() as int))
                    =~= lines_view(acc0) + to_lines(s));
            }
            start = k;
        }
    }
    proof {
        assert(v@.skip(v@.len() as int) =~= Seq::<char>::empty());
        assert(lines_view(acc@) + to_lines(Seq::<char>::empty()) =~= lines_view(acc@));
    }
    acc
}

/// Removes leading blank space, mirroring [`trim_start`].
fn trimmed(l: &Vec<char>) -> (r: Vec<char>)
    ensures
        r@ == trim_start(l@),
{
    let mut k: usize = 0;
    while k < l.len() && is_space(l[k])
        invariant
            0 <= k <= l@.len(),
            forall|j: int| 0 <= j < k ==> crate::text::spec_is_space(l@[j]),
        decreases l@.len() - k,
    {
        k += 1;
    }
    proof {
        lemma_trim_start_is(l@, k as int);
    }
    let r = copy_range(l, k, l.len());
    proof {
        assert(r@ =~= l@.skip(k as int));
    }
    r
}

/// Whether the line is exactly the given literal.
fn line_is(body: &Vec<char>, lit: &str) -> (r: bool)
    ensures
        r == (body@ == lit@),
{
    let n = body.len();
    let ln = lit.unicode_len();
    if n != ln {
        proof {
            assert(body@.len() != lit@.len());
        }
        return false;
    }
    let r = crate::text::lit_at(body, 0, lit);
    proof {
        if r {
            assert(body@.subrange(0, n as int) =~= body@);
        } else {
            assert(body@.subrange(0, n as int) =~= body@);
        }
    }
    r
}

/// Reads a quoted key/value line, mirroring [`parse_kv`].
fn parse_kv_line(body: &Vec<char>, pre: &str) -> (r: Option<Vec<char>>)
    ensures
        match r {
            Some(x) => parse_kv(pre@, body@) == Some(x@),
            None => parse_kv(pre@, body@) is None,
        },
{
    let pn = pre.unicode_len();
    let n = body.len();
    if !crate::text::lit_at(body, 0, pre) {
        return None;
    }
    if n <= pn {
        return None;
    }
    if body[n - 1] != '"' {
        return None;
    }
    unescape_range(body, pn, n - 1)
}

/// Reads a payload entry line, mirroring [`parse_payload`].
fn parse_payload_line(body: &Vec<char>, pre: &str) -> (r: Option<Vec<char>>)
    ensures
        match r {
            Some(x) => parse_payload(pre@, body@) == Some(x@),
            None => parse_payload(pre@, body@) is None,
        },
{
    proof {
        reveal_strlit("\" },");
    }
    let pn = pre.unicode_len();
    let n = body.len();
    if !crate::text::lit_at(body, 0, pre) {
        return None;
    }
    if n < 4 || n - 4 < pn {
        return None;
    }
    if !crate::text::lit_at(body, n - 4, "\" },") {
        return None;
    }
    proof {
        assert(body@.subrange(n - 4, n as int) == ("\" },")@);
    }
    unescape_range(body, pn, n - 4)
}

/// Reads a history entry line, mirroring [`parse_entry`].
fn parse_entry_line(body: &Vec<char>) -> (r: Option<crate::plan::HistoryEntry>)
    ensures
        match r {
            Some(e) => parse_entry(body@) == Some(e@),
            None => parse_entry(body@) is None,
        },
{
    match parse_payload_line(body, "{ commit_created = \"") {
        Some(x) => {
            return Some(crate::plan::HistoryEntry::CommitCreated(crate::text::string_of(&x)));
        },
        None => {},
    }
    match parse_payload_line(body, "{ stuck = \"") {
        Some(x) => {
            return Some(crate::plan::HistoryEntry::Stuck(crate::text::string_of(&x)));
        },
        None => {},
    }
    match parse_payload_line(body, "{ resolved = \"") {
        Some(x) => {
            return Some(crate::plan::HistoryEntry::Resolved(crate::text::string_of(&x)));
        },
        None => {},
    }
    if line_is(body, "\"complete\",") {
        return Some(crate::plan::HistoryEntry::Complete);
    }
    None
}

// ---------------------------------------------------------------------------
// The document reader
// ---------------------------------------------------------------------------
/// Why a document could not be read or written.
#[derive(Debug, Clone, PartialEq)]
pub enum FormatError {
    /// The text does not follow the document's line grammar.
    Malformed,
    /// A string holds a control character that has no escape.
    Unencodable,
}

impl FormatError {
    /// A short description of the error.
    pub fn describe(&self) -> (r: String)
        ensures
            r@.len() > 0,
    {
        match self {
            FormatError::Malformed => {
                let r = String::from_str("the document does not follow the plan grammar");
                proof {
                    reveal_strlit("the document does not follow the plan grammar");
                }
                r
            },
            FormatError::Unencodable => {
                let r = String::from_str("a string holds a control character that has no escape");
                proof {
                    reveal_strlit("a string holds a control character that has no escape");
                }
                r
            },
        }
    }
}

/// The model of a vector of commits.
pub open spec fn commits_view(cs: Seq<crate::plan::CommitSpec>) -> Seq<CommitSpecView> {
    cs.map_values(|c: crate::plan::CommitSpec| c@)
}

/// The model of a vector of history entries.
pub open spec fn entries_view(es: Seq<crate::plan::HistoryEntry>) -> Seq<HistoryEntryView> {
    es.map_values(|e: crate::plan::HistoryEntry| e@)
}

/// The model of an optional character buffer.
pub open spec fn opt_chars(h: Option<Vec<char>>) -> Option<Seq<char>> {
    match h {
        Some(x) => Some(x@),
        None => None,
    }
}

/// The exec parser's position in the line grammar.
enum Stage {
    ExpectSource,
    ExpectRemote,
    ExpectCleaned,
    Body,
    ExpectMessage,
    InCommit,
    AfterHints,
    InHistory,
}

/// The parser state modelled by the exec parser's locals.
spec fn stage_view(
    stage: Stage,
    src: Seq<char>,
    rem: Seq<char>,
    cln: Seq<char>,
    commits: Seq<CommitSpecView>,
    msg: Seq<char>,
    hints: Option<Seq<char>>,
    entries: Seq<HistoryEntryView>,
) -> ParseStage {
    let header = HeaderFields { source: src, remote: rem, cleaned: cln };
    match stage {
        Stage::ExpectSource => ParseStage::ExpectSource,
        Stage::ExpectRemote => ParseStage::ExpectRemote { source: src },
        Stage::ExpectCleaned => ParseStage::ExpectCleaned { source: src, remote: rem },
        Stage::Body => ParseStage::Body { header, commits },
        Stage::ExpectMessage => ParseStage::ExpectMessage { header, commits },
        Stage::InCommit => ParseStage::InCommit { header, commits, message: msg },
        Stage::AfterHints => ParseStage::AfterHints {
            header,
            commits,
            message: msg,
            hints: hints->0,
        },
        Stage::InHistory => ParseStage::InHistory { header, commits, message: msg, hints, entries },
    }
}

/// Appends the finished commit block to the commit list.
fn flush_commit(
    commits: &mut Vec<crate::plan::CommitSpec>,
    msg: &Vec<char>,
    hints: Option<Vec<char>>,
    hist: Vec<crate::plan::HistoryEntry>,
)
    ensures
        commits_view(final(commits)@) == commits_view(old(commits)@).push(
            built_commit(msg@, opt_chars(hints), entries_view(hist@)),
        ),
{
    let ghost target = built_commit(msg@, opt_chars(hints), entries_view(hist@));
    let hs: Option<String> = match hints {
        Some(x) => Some(crate::text::string_of(&x)),
        None => None,
    };
    let c = crate::plan::CommitSpec {
        message: crate::text::string_of(msg),
        hints: hs,
        history: hist,
    };
    proof {
        assert(c@ =~= target);
    }
    let ghost before = commits@;
    commits.push(c);
    proof {
        assert(commits_view(commits@) =~= commits_view(before).push(target));
    }
}

impl crate::plan::HistorySpec {
    /// Reads a plan document from its textual form.
    ///
    /// Returns the parsed document exactly when the text follows the
    /// document grammar, and `Malformed` otherwise.
    pub fn from_toml(content: &str) -> (r: Result<crate::plan::HistorySpec, FormatError>)
        ensures
            match r {
                Ok(d) => sp_parse(content@) == Some(d@),
                Err(e) => sp_parse(content@) is None && e is Malformed,
            },
    {
        let chars = crate::text::chars_of(content);
        let lines = split_into_lines(&chars);
        let ghost ls = lines_view(lines@);
        let mut stage = Stage::ExpectSource;
        let mut src_v: Vec<char> = Vec::new();
        let mut rem_v: Vec<char> = Vec::new();
        let mut cln_v: Vec<char> = Vec::new();
        let mut commits: Vec<crate::plan::CommitSpec> = Vec::new();
        let mut msg_v: Vec<char> = Vec::new();
        let mut hints_o: Option<Vec<char>> = None;
        let mut hist: Vec<crate::plan::HistoryEntry> = Vec::new();
        let mut li: usize = 0;
        proof {
            assert(commits_view(commits@) =~= Seq::<CommitSpecView>::empty());
        }
        while li < lines.len()
            invariant
                0 <= li <= lines@.len(),
                ls == lines_view(lines@),
                ls.len() == lines@.len(),
                ls == to_lines(content@),
                stage is AfterHints ==> hints_o is Some,
                sp_run(
                    ls,
                    li as int,
                    stage_view(
                        stage,
                        src_v@,
                        rem_v@,
                        cln_v@,
                        commits_view(commits@),
                        msg_v@,
                        opt_chars(hints_o),
                        entries_view(hist@),
                    ),
                ) == sp_parse(content@),
            decreases lines@.len() - li,
        {
            let ghost st_old = stage_view(
                stage,
                src_v@,
                rem_v@,
                cln_v@,
                commits_view(commits@),
                msg_v@,
                opt_chars(hints_o),
                entries_view(hist@),
            );
            let body = trimmed(&lines[li]);
            proof {
                assert(lines_view(lines@)[li as int] == lines@[li as int]@);
                assert(body@ == trim_start(ls[li as int]));
            }
            if body.len() == 0 {
                li += 1;
                continue ;
            }
            match stage {
                Stage::ExpectSource => {
                    match parse_kv_line(&body, "source = \"") {
                        Some(x) => {
                            src_v = x;
                            stage = Stage::ExpectRemote;
                        },
                        None => {
                            return Err(FormatError::Malformed);
                        },
                    }
                },
                Stage::ExpectRemote => {
                    match parse_kv_line(&body, "remote = \"") {
                        Some(x) => {
                            rem_v = x;
                            stage = Stage::ExpectCleaned;
                        },
                        None => {
                            return Err(FormatError::Malformed);
                        },
                    }
                },
                Stage::ExpectCleaned => {
                    match parse_kv_line(&body, "cleaned = \"") {
                        Some(x) => {
                            cln_v = x;
                            commits = Vec::new();
                            stage = Stage::Body;
                            proof {
                                assert(commits_view(commits@)
                                    =~= Seq::<CommitSpecView>::empty());
                            }
                        },
                        None => {
                            return Err(FormatError::Malformed);
                        },
                    }
                },
                Stage::Body => {
                    if line_is(&body, "[[commit]]") {
                        stage = Stage::ExpectMessage;
                    } else {
                        return Err(FormatError::Malformed);
                    }
                },
                Stage::ExpectMessage => {
                    match parse_kv_line(&body, "message = \"") {
                        Some(x) => {
                            msg_v = x;
                            hints_o = None;
                            hist = Vec::new();
                            stage = Stage::InCommit;
                        },
                        None => {
                            return Err(FormatError::Malformed);
                        },
                    }
                },
                Stage::InCommit => {
                    match parse_kv_line(&body, "hints = \"") {
                        Some(x) => {
                            hints_o = Some(x);
                            stage = Stage::AfterHints;
                        },
                        None => {
                            if line_is(&body, "history = [") {
                                hints_o = None;
                                hist = Vec::new();
                                stage = Stage::InHistory;
                            } else if line_is(&body, "[[commit]]") {
                                let ghost cv0 = commits_view(commits@);
                                flush_commit(&mut commits, &msg_v, None, Vec::new());
                                proof {
                                    assert(entries_view(
                                        Seq::<crate::plan::HistoryEntry>::empty(),
                                    ) =~= Seq::<HistoryEntryView>::empty());
                                    assert(commits_view(commits@) == cv0.push(
                                        built_commit(msg_v@, None, Seq::empty()),
                                    ));
                                }
                                stage = Stage::ExpectMessage;
                            } else {
                                return Err(FormatError::Malformed);
                            }
                        },
                    }
                },
                Stage::AfterHints => {
                    if line_is(&body, "history = [") {
                        hist = Vec::new();
                        stage = Stage::InHistory;
                    } else if line_is(&body, "[[commit]]") {
                        let h = hints_o;
                        hints_o = None;
                        let ghost cv0 = commits_view(commits@);
                        flush_commit(&mut commits, &msg_v, h, Vec::new());
                        proof {
                            assert(entries_view(Seq::<crate::plan::HistoryEntry>::empty())
                                =~= Seq::<HistoryEntryView>::empty());
                            assert(commits_view(commits@) == cv0.push(
                                built_commit(msg_v@, opt_chars(h), Seq::empty()),
                            ));
                        }
                        stage = Stage::ExpectMessage;
                    } else {
                        return Err(FormatError::Malformed);
                    }
                },
                Stage::InHistory => {
                    if line_is(&body, "]") {
                        let h = hints_o;
                        hints_o = None;
                        let es = hist;
                        hist = Vec::new();
                        let ghost cv0 = commits_view(commits@);
                        let ghost es0 = entries_view(es@);
                        flush_commit(&mut commits, &msg_v, h, es);
                        proof {
                            assert(commits_view(commits@) == cv0.push(
                                built_commit(msg_v@, opt_chars(h), es0),
                            ));
                        }
                        stage = Stage::Body;
                    } else {
                        match parse_entry_line(&body) {
                            Some(e) => {
                                let ghost es0 = entries_view(hist@);
                                let ghost ev = e@;
                                hist.push(e);
                                proof {
                                    assert(entries_view(hist@) =~= es0.push(ev));
                                }
                            },
                            None => {
                                return Err(FormatError::Malformed);
                            },
                        }
                    }
                },
            }
            proof {
                let st_new = stage_view(
                    stage,
                    src_v@,
                    rem_v@,
                    cln_v@,
                    commits_view(commits@),
                    msg_v@,
                    opt_chars(hints_o),
                    entries_view(hist@),
                );
                assert(entries_view(Seq::<crate::plan::HistoryEntry>::empty())
                    =~= Seq::<HistoryEntryView>::empty());
                assert(sp_step(st_old, body@) == Some(st_new));
                assert(sp_run(ls, li as int, st_old) == sp_run(ls, li as int + 1, st_new));
            }
            li += 1;
        }
        let ghost st_end = stage_view(
            stage,
            src_v@,
            rem_v@,
            cln_v@,
            commits_view(commits@),
            msg_v@,
            opt_chars(hints_o),
            entries_view(hist@),
        );
        proof {
            assert(sp_parse(content@) == sp_finish(st_end));
        }
        match stage {
            Stage::Body => {},
            Stage::InCommit => {
                flush_commit(&mut commits, &msg_v, None, Vec::new());
            },
            Stage::AfterHints => {
                let h = hints_o;
                hints_o = None;
                flush_commit(&mut commits, &msg_v, h, Vec::new());
            },
            _ => {
                return Err(FormatError::Malformed);
            },
        }
        let d = crate::plan::HistorySpec {
            source: crate::text::string_of(&src_v),
            remote: crate::text::string_of(&rem_v),
            cleaned: crate::text::string_of(&cln_v),
            commits,
        };
        proof {
            assert(entries_view(Seq::<crate::plan::HistoryEntry>::empty())
                =~= Seq::<HistoryEntryView>::empty());
            assert(d@ =~~= sp_finish(st_end)->0);
        }
        Ok(d)
    }
}

// ---------------------------------------------------------------------------
// The document writer
// ---------------------------------------------------------------------------
/// One line joins as its text and a terminator.
proof fn lemma_unlines_one(l: Seq<char>)
    ensures
        unlines(seq![l]) == l + seq!['\n'],
{
    assert(seq![l].drop_first() =~= Seq::<Seq<char>>::empty());
    assert(l + seq!['\n'] + unlines(Seq::<Seq<char>>::empty()) =~= l + seq!['\n']);
}

/// Appending an entry appends its line.
proof fn lemma_history_lines_push(es: Seq<HistoryEntryView>, e: HistoryEntryView)
    ensures
        history_lines(es.push(e)) == history_lines(es) + seq![entry_line(e)],
    decreases es.len(),
{
    if es.len() == 0 {
        assert(es.push(e).drop_first() =~= Seq::<HistoryEntryView>::empty());
        assert(es.push(e)[0] == e);
        assert(history_lines(es.push(e)) == seq![entry_line(e)] + history_lines(
            Seq::<HistoryEntryView>::empty(),
        ));
        assert(seq![entry_line(e)] + history_lines(Seq::<HistoryEntryView>::empty())
            =~= history_lines(es) + seq![entry_line(e)]);
    } else {
        assert(es.push(e).drop_first() =~= es.drop_first().push(e));
        assert(es.push(e)[0] == es[0]);
        lemma_history_lines_push(es.drop_first(), e);
        assert(history_lines(es.push(e)) == seq![entry_line(es[0])] + (history_lines(
            es.drop_first(),
        ) + seq![entry_line(e)]));
        assert(seq![entry_line(es[0])] + (history_lines(es.drop_first()) + seq![entry_line(e)])
            =~= (seq![entry_line(es[0])] + history_lines(es.drop_first())) + seq![entry_line(e)]);
    }
}

/// Appending a commit appends its block's lines.
proof fn lemma_commits_lines_push(cs: Seq<CommitSpecView>, c: CommitSpecView)
    ensures
        commits_lines(cs.push(c)) == commits_lines(cs) + commit_lines(c),
    decreases cs.len(),
{
    if cs.len() == 0 {
        assert(cs.push(c).drop_first() =~= Seq::<CommitSpecView>::empty());
        assert(cs.push(c)[0] == c);
        assert(commits_lines(cs.push(c)) == commit_lines(c) + commits_lines(
            Seq::<CommitSpecView>::empty(),
        ));
        assert(commit_lines(c) + commits_lines(Seq::<CommitSpecView>::empty()) =~= commits_lines(
            cs,
        ) + commit_lines(c));
    } else {
        assert(cs.push(c).drop_first() =~= cs.drop_first().push(c));
        assert(cs.push(c)[0] == cs[0]);
        lemma_commits_lines_push(cs.drop_first(), c);
        assert(commits_lines(cs.push(c)) == commit_lines(cs[0]) + (commits_lines(cs.drop_first())
            + commit_lines(c)));
        assert(commit_lines(cs[0]) + (commits_lines(cs.drop_first()) + commit_lines(c)) =~= (
        commit_lines(cs[0]) + commits_lines(cs.drop_first())) + commit_lines(c));
    }
}

/// Whether one entry's payload is encodable.
fn entry_is_encodable(e: &crate::plan::HistoryEntry) -> (r: bool)
    ensures
        r == entry_encodable(e@),
{
    match e {
        crate::plan::HistoryEntry::CommitCreated(h) => {
            let cs = crate::text::chars_of(h.as_str());
            is_encodable(&cs)
        },
        crate::plan::HistoryEntry::Stuck(s) => {
            let cs = crate::text::chars_of(s.as_str());
            is_encodable(&cs)
        },
        crate::plan::HistoryEntry::Resolved(n) => {
            let cs = crate::text::chars_of(n.as_str());
            is_encodable(&cs)
        },
        crate::plan::HistoryEntry::Complete => true,
    }
}

/// Whether every string of one commit is encodable.
fn commit_is_encodable(c: &crate::plan::CommitSpec) -> (r: bool)
    ensures
        r == commit_encodable(c@),
{
    let ms = crate::text::chars_of(c.message.as_str());
    if !is_encodable(&ms) {
        return false;
    }
    match &c.hints {
        Some(h) => {
            let hs = crate::text::chars_of(h.as_str());
            if !is_encodable(&hs) {
                return false;
            }
        },
        None => {},
    }
    let mut j: usize = 0;
    while j < c.history.len()
        invariant
            0 <= j <= c.history@.len(),
            forall|k: int| 0 <= k < j ==> entry_encodable(#[trigger] entries_view(c.history@)[k]),
        decreases c.history@.len() - j,
    {
        if !entry_is_encodable(&c.history[j]) {
            proof {
                assert(entries_view(c.history@)[j as int] == c.history@[j as int]@);
                assert(entries_view(c.history@) =~= c@.history);
            }
            return false;
        }
        proof {
            assert(entries_view(c.history@)[j as int] == c.history@[j as int]@);
        }
        j += 1;
    }
    proof {
        assert(entries_view(c.history@) =~= c@.history);
        assert(entries_encodable(c@.history));
    }
    true
}

/// Appends a quoted key/value line and its terminator.
fn emit_kv(out: &mut Vec<char>, pre: &str, v: &Vec<char>)
    ensures
        final(out)@ == old(out)@ + kv_line(pre@, v@) + seq!['\n'],
{
    crate::text::append_lit(out, pre);
    push_escaped(out, v);
    out.push('"');
    out.push('\n');
    proof {
        assert(out@ =~= old(out)@ + kv_line(pre@, v@) + seq!['\n']);
    }
}

/// Appends one history entry line and its terminator.
fn emit_entry(out: &mut Vec<char>, e: &crate::plan::HistoryEntry)
    ensures
        final(out)@ == old(out)@ + entry_line(e@) + seq!['\n'],
{
    match e {
        crate::plan::HistoryEntry::CommitCreated(h) => {
            let cs = crate::text::chars_of(h.as_str());
            crate::text::append_lit(out, "{ commit_created = \"");
            push_escaped(out, &cs);
            crate::text::append_lit(out, "\" },");
            out.push('\n');
            proof {
                assert(out@ =~= old(out)@ + entry_line(e@) + seq!['\n']);
            }
        },
        crate::plan::HistoryEntry::Stuck(s) => {
            let cs = crate::text::chars_of(s.as_str());
            crate::text::append_lit(out, "{ stuck = \"");
            push_escaped(out, &cs);
            crate::text::append_lit(out, "\" },");
            out.push('\n');
            proof {
                assert(out@ =~= old(out)@ + entry_line(e@) + seq!['\n']);
            }
        },
        crate::plan::HistoryEntry::Resolved(n) => {
            let cs = crate::text::chars_of(n.as_str());
            crate::text::append_lit(out, "{ resolved = \"");
            push_escaped(out, &cs);
            crate::text::append_lit(out, "\" },");
            out.push('\n');
            proof {
                assert(out@ =~= old(out)@ + entry_line(e@) + seq!['\n']);
            }
        },
        crate::plan::HistoryEntry::Complete => {
            crate::text::append_lit(out, "\"complete\",");
            out.push('\n');
            proof {
                assert(out@ =~= old(out)@ + entry_line(e@) + seq!['\n']);
            }
        },
    }
}

/// Appends one commit block's lines.
#[verifier::rlimit(50)]
fn emit_commit(out: &mut Vec<char>, c: &crate::plan::CommitSpec)
    ensures
        final(out)@ == old(out)@ + unlines(commit_lines(c@)),
{
    let ghost head: Seq<Seq<char>> = seq![("[[commit]]")@, kv_line(("message = \"")@, c@.message)];
    let ghost hints_ls: Seq<Seq<char>> = match c@.hints {
        Some(h) => seq![kv_line(("hints = \"")@, h)],
        None => Seq::empty(),
    };
    let ghost hist_ls: Seq<Seq<char>> = if c@.history.len() > 0 {
        seq![("history = [")@] + history_lines(c@.history) + seq![("]")@]
    } else {
        Seq::empty()
    };
    crate::text::append_lit(out, "[[commit]]");
    out.push('\n');
    let ms = crate::text::chars_of(c.message.as_str());
    emit_kv(out, "message = \"", &ms);
    proof {
        lemma_unlines_one(("[[commit]]")@);
        lemma_unlines_one(kv_line(("message = \"")@, c@.message));
        lemma_unlines_concat(seq![("[[commit]]")@], seq![kv_line(("message = \"")@, c@.message)]);
        assert(seq![("[[commit]]")@] + seq![kv_line(("message = \"")@, c@.message)] =~= head);
        assert(out@ =~= old(out)@ + unlines(head));
    }
    match &c.hints {
        Some(h) => {
            let hs = crate::text::chars_of(h.as_str());
            emit_kv(out, "hints = \"", &hs);
            proof {
                lemma_unlines_one(kv_line(("hints = \"")@, h@));
                assert(out@ =~= old(out)@ + unlines(head) + unlines(hints_ls));
            }
        },
        None => {
            proof {
                assert(unlines(hints_ls) =~= Seq::<char>::empty());
                assert(out@ =~= old(out)@ + unlines(head) + unlines(hints_ls));
            }
        },
    }
    let ghost mid = old(out)@ + unlines(head) + unlines(hints_ls);
    if c.history.len() > 0 {
        crate::text::append_lit(out, "history = [");
        out.push('\n');
        let ghost open_done = out@;
        proof {
            lemma_unlines_one(("history = [")@);
            assert(open_done =~= mid + unlines(seq![("history = [")@]));
        }
        let mut j: usize = 0;
        proof {
            assert(entries_view(c.history@.subrange(0, 0)) =~= Seq::<HistoryEntryView>::empty());
            assert(out@ =~= open_done + unlines(
                history_lines(entries_view(c.history@.subrange(0, 0))),
            ));
        }
        while j < c.history.len()
            invariant
                0 <= j <= c.history@.len(),
                out@ == open_done + unlines(
                    history_lines(entries_view(c.history@.subrange(0, j as int))),
                ),
            decreases c.history@.len() - j,
        {
            let ghost pre_es = entries_view(c.history@.subrange(0, j as int));
            emit_entry(out, &c.history[j]);
            proof {
                let e = c.history@[j as int]@;
                assert(entries_view(c.history@.subrange(0, j as int + 1)) =~= pre_es.push(e));
                lemma_history_lines_push(pre_es, e);
                lemma_unlines_concat(history_lines(pre_es), seq![entry_line(e)]);
                lemma_unlines_one(entry_line(e));
                assert(out@ =~= open_done + unlines(
                    history_lines(entries_view(c.history@.subrange(0, j as int + 1))),
                ));
            }
            j += 1;
        }
        crate::text::append_lit(out, "]");
        out.push('\n');
        proof {
            assert(c.history@.subrange(0, c.history@.len() as int) =~= c.history@);
            assert(entries_view(c.history@) == c@.history);
            lemma_unlines_one(("]")@);
            lemma_unlines_concat(seq![("history = [")@], history_lines(c@.history));
            lemma_unlines_concat(
                seq![("history = [")@] + history_lines(c@.history),
                seq![("]")@],
            );
            assert(out@ =~= mid + unlines(hist_ls));
        }
    } else {
        proof {
            assert(c@.history.len() == 0);
            assert(unlines(hist_ls) =~= Seq::<char>::empty());
            assert(out@ =~= mid + unlines(hist_ls));
        }
    }
    proof {
        lemma_unlines_concat(head, hints_ls);
        lemma_unlines_concat(head + hints_ls, hist_ls);
        assert(commit_lines(c@) == head + hints_ls + hist_ls);
        assert(out@ =~= old(out)@ + unlines(commit_lines(c@)));
    }
}

impl crate::plan::HistorySpec {
    /// Writes the plan document in its textual form.
    ///
    /// Succeeds exactly when every string of the document can stand in a
    /// quoted value; the text re-parses to an equal document
    /// ([`lemma_document_round_trip`]).
    pub fn to_toml(&self) -> (r: Result<String, FormatError>)
        ensures
            match r {
                Ok(s) => plan_encodable(self@) && s@ == sp_ser(self@),
                Err(e) => !plan_encodable(self@) && e is Unencodable,
            },
    {
        let src_c = crate::text::chars_of(self.source.as_str());
        let rem_c = crate::text::chars_of(self.remote.as_str());
        let cln_c = crate::text::chars_of(self.cleaned.as_str());
        if !is_encodable(&src_c) || !is_encodable(&rem_c) || !is_encodable(&cln_c) {
            return Err(FormatError::Unencodable);
        }
        let mut i: usize = 0;
        while i < self.commits.len()
            invariant
                0 <= i <= self.commits@.len(),
                forall|k: int|
                    0 <= k < i ==> commit_encodable(#[trigger] commits_view(self.commits@)[k]),
            decreases self.commits@.len() - i,
        {
            if !commit_is_encodable(&self.commits[i]) {
                proof {
                    assert(commits_view(self.commits@)[i as int] == self.commits@[i as int]@);
                    assert(commits_view(self.commits@) =~= self@.commits);
                    assert(!plan_encodable(self@));
                }
                return Err(FormatError::Unencodable);
            }
            proof {
                assert(commits_view(self.commits@)[i as int] == self.commits@[i as int]@);
            }
            i += 1;
        }
        proof {
            assert(commits_view(self.commits@) =~= self@.commits);
            assert(plan_encodable(self@));
        }
        let mut out: Vec<char> = Vec::new();
        emit_kv(&mut out, "source = \"", &src_c);
        emit_kv(&mut out, "remote = \"", &rem_c);
        emit_kv(&mut out, "cleaned = \"", &cln_c);
        let ghost head: Seq<Seq<char>> = seq![
            kv_line(("source = \"")@, self@.source),
            kv_line(("remote = \"")@, self@.remote),
            kv_line(("cleaned = \"")@, self@.cleaned),
        ];
        proof {
            lemma_unlines_one(kv_line(("source = \"")@, self@.source));
            lemma_unlines_one(kv_line(("remote = \"")@, self@.remote));
            lemma_unlines_one(kv_line(("cleaned = \"")@, self@.cleaned));
            lemma_unlines_concat(
                seq![kv_line(("source = \"")@, self@.source)],
                seq![kv_line(("remote = \"")@, self@.remote)],
            );
            lemma_unlines_concat(
                seq![kv_line(("source = \"")@, self@.source), kv_line(
                    ("remote = \"")@,
                    self@.remote,
                )],
                seq![kv_line(("cleaned = \"")@, self@.cleaned)],
            );
            assert(seq![kv_line(("source = \"")@, self@.source)] + seq![kv_line(
                ("remote = \"")@,
                self@.remote,
            )] =~= seq![kv_line(("source = \"")@, self@.source), kv_line(
                ("remote = \"")@,
                self@.remote,
            )]);
            assert(seq![kv_line(("source = \"")@, self@.source), kv_line(
                ("remote = \"")@,
                self@.remote,
            )] + seq![kv_line(("cleaned = \"")@, self@.cleaned)] =~= head);
            assert(out@ =~= unlines(head));
        }
        let mut i2: usize = 0;
        proof {
            assert(commits_view(self.commits@.subrange(0, 0)) =~= Seq::<CommitSpecView>::empty());
            assert(head + commits_lines(Seq::<CommitSpecView>::empty()) =~= head);
            assert(out@ =~= unlines(head + commits_lines(commits_view(self.commits@.subrange(0, 0)))));
        }
        while i2 < self.commits.len()
            invariant
                0 <= i2 <= self.commits@.len(),
                out@ == unlines(
                    head + commits_lines(commits_view(self.commits@.subrange(0, i2 as int))),
                ),
            decreases self.commits@.len() - i2,
        {
            let ghost pre_cs = commits_view(self.commits@.subrange(0, i2 as int));
            emit_commit(&mut out, &self.commits[i2]);
            proof {
                let cv = self.commits@[i2 as int]@;
                assert(commits_view(self.commits@.subrange(0, i2 as int + 1)) =~= pre_cs.push(cv));
                lemma_commits_lines_push(pre_cs, cv);
                lemma_unlines_concat(head + commits_lines(pre_cs), commit_lines(cv));
                assert(head + commits_lines(pre_cs) + commit_lines(cv) =~= head + commits_lines(
                    pre_cs.push(cv),
                ));
                assert(out@ =~= unlines(
                    head + commits_lines(commits_view(self.commits@.subrange(0, i2 as int + 1))),
                ));
            }
            i2 += 1;
        }
        proof {
            assert(self.commits@.subrange(0, self.commits@.len() as int) =~= self.commits@);
            assert(commits_view(self.commits@) == self@.commits);
            assert(head + commits_lines(self@.commits) =~= ser_lines(self@));
            assert(out@ == sp_ser(self@));
        }
        Ok(crate::text::string_of(&out))
    }
}

} // verus!
