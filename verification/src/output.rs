//! What the hook tells the session, and what it writes into the changelog.

use vstd::prelude::*;

use crate::session::SpecEntry;
use crate::session::SpecEntryView;

verus! {

// ---------------------------------------------------------------------------
// JSON
// ---------------------------------------------------------------------------

/// A hexadecimal digit, in lower case.
pub open spec fn hex_digit(d: int) -> char {
    if d < 10 {
        ('0' as int + d) as char
    } else {
        ('a' as int + d - 10) as char
    }
}

/// A character inside a JSON string.
pub open spec fn json_char(c: char) -> Seq<char> {
    if c == '"' || c == '\\' {
        seq!['\\', c]
    } else if c == '\u{8}' {
        seq!['\\', 'b']
    } else if c == '\t' {
        seq!['\\', 't']
    } else if c == '\n' {
        seq!['\\', 'n']
    } else if c == '\u{c}' {
        seq!['\\', 'f']
    } else if c == '\r' {
        seq!['\\', 'r']
    } else if (c as int) < 32 {
        seq!['\\', 'u', '0', '0', hex_digit(c as int / 16), hex_digit(c as int % 16)]
    } else {
        seq![c]
    }
}

/// A text as a JSON string.
pub open spec fn json_string(s: Seq<char>) -> Seq<char> {
    seq!['"'] + s.flat_map(|c: char| json_char(c)) + seq!['"']
}

/// A member of a JSON object whose value is a string.
pub open spec fn json_member(key: Seq<char>, value: Seq<char>) -> Seq<char> {
    json_string(key) + seq![':'] + json_string(value)
}

/// A JSON object with two members, under a key of its own.
pub open spec fn json_nested(
    outer: Seq<char>,
    first: (Seq<char>, Seq<char>),
    second: (Seq<char>, Seq<char>),
) -> Seq<char> {
    seq!['{'] + json_string(outer) + seq![':', '{'] + json_member(first.0, first.1) + seq![',']
        + json_member(second.0, second.1) + seq!['}', '}']
}

/// `serde_json::Value`, displayed: the compact text of an object, under the key
/// `outer`, of an object with two strings in it. Without the feature that keeps the
/// order of insertion, members come in the order of their keys; here the keys
/// differ in their first characters.
#[verifier::external_body]
pub(crate) fn nested_object(outer: &str, first: (&str, &str), second: (&str, &str)) -> (json: String)
    requires
        first.0@.len() > 0,
        second.0@.len() > 0,
        first.0@[0] < second.0@[0],
    ensures
        json@ == json_nested(outer@, (first.0@, first.1@), (second.0@, second.1@)),
{
    let mut inner = serde_json::Map::new();
    inner.insert(first.0.to_string(), serde_json::Value::String(first.1.to_string()));
    inner.insert(second.0.to_string(), serde_json::Value::String(second.1.to_string()));
    let mut object = serde_json::Map::new();
    object.insert(outer.to_string(), serde_json::Value::Object(inner));
    serde_json::Value::Object(object).to_string()
}

// ---------------------------------------------------------------------------
// The session's context
// ---------------------------------------------------------------------------

/// The line that hands `text` to the session as additional context.
pub open spec fn context_line(text: Seq<char>) -> Seq<char> {
    json_nested(
        "hookSpecificOutput"@,
        ("additionalContext"@, text),
        ("hookEventName"@, "SessionStart"@),
    )
}

/// The line that hands `text` to the session as additional context.
pub fn emit_context(text: &str) -> (line: String)
    ensures
        line@ == context_line(text@),
{
    proof {
        reveal_strlit("additionalContext");
        reveal_strlit("hookEventName");
    }
    nested_object(
        "hookSpecificOutput",
        ("additionalContext", text),
        ("hookEventName", "SessionStart"),
    )
}

/// The line that announces a worktree.
pub open spec fn worktree_line(e: SpecEntryView) -> Seq<char> {
    "  "@ + e.repo + ": "@ + e.wt_path + " (branch: "@ + e.branch + ")\n"@
}

/// The announcement of the worktrees of a session.
pub open spec fn worktrees_text(entries: Seq<SpecEntryView>) -> Seq<char> {
    "\nActive worktrees for this session:\n"@ + entries.flat_map(
        |e: SpecEntryView| worktree_line(e),
    )
        + "\nUse these worktree paths for ALL file operations (reads, writes, git commands).\n"@
        + "Do NOT use the main checkout directly — use the worktree path above."@
}

/// The announcement of the worktrees of a session.
fn announce(entries: &[SpecEntry]) -> (text: String)
    ensures
        text@ == worktrees_text(entries.deep_view()),
{
    let mut text = "\nActive worktrees for this session:\n".to_string();
    let mut i: usize = 0;
    let ghost all = entries.deep_view();
    let ghost line = |e: SpecEntryView| worktree_line(e);
    let ghost head = text@;
    assert(all.take(0).flat_map(line) =~= Seq::<char>::empty());
    while i < entries.len()
        invariant
            i <= entries@.len(),
            all == entries.deep_view(),
            line == (|e: SpecEntryView| worktree_line(e)),
            text@ == head + all.take(i as int).flat_map(line),
        decreases entries.len() - i,
    {
        let e = &entries[i];
        let ghost before = text@;
        text.append("  ");
        text.append(e.repo.as_str());
        text.append(": ");
        text.append(e.wt_path.as_str());
        text.append(" (branch: ");
        text.append(e.branch.as_str());
        text.append(")\n");
        proof {
            all.lemma_flat_map_take_append(line, i as int);
            assert(all[i as int] == e.deep_view());
            assert(text@ =~= before + worktree_line(e.deep_view()));
        }
        i = i + 1;
    }
    assert(all.take(all.len() as int) =~= all);
    text.append("\nUse these worktree paths for ALL file operations (reads, writes, git commands).\n");
    text.append("Do NOT use the main checkout directly — use the worktree path above.");
    text
}

/// The line that announces the worktrees of a session, if it has any.
pub fn output_worktree_paths(entries: &[SpecEntry]) -> (line: Option<String>)
    ensures
        line.deep_view() == if entries@.len() == 0 {
            None
        } else {
            Some(context_line(worktrees_text(entries.deep_view())))
        },
{
    if entries.len() == 0 {
        None
    } else {
        Some(emit_context(announce(entries).as_str()))
    }
}

// ---------------------------------------------------------------------------
// The changelog
// ---------------------------------------------------------------------------

/// How a changelog begins.
pub open spec fn header_text(timestamp: Seq<char>, id: Seq<char>) -> Seq<char> {
    "## Session: "@ + timestamp + " ("@ + id + ")\n\n"@
}

/// The note in a changelog that replaces one that was not found on resume.
pub open spec fn lost_note() -> Seq<char> {
    "> **Note**: Original changelog not found — created fresh on resume.\n\n"@
}

/// The note in a changelog that was written again.
pub open spec fn again_note(source: Seq<char>) -> Seq<char> {
    "> **Note**: Changelog recreated after "@ + source + ".\n\n"@
}

/// The mark of a session that is taken up again.
pub open spec fn resume_text(timestamp: Seq<char>) -> Seq<char> {
    "\n---\n### Session resumed: "@ + timestamp + "\n"@
}

/// The entry for a worktree that could not be restored.
pub open spec fn restore_warning(error: Seq<char>) -> Seq<char> {
    "\n### Worktree restore warning\n- "@ + error + "\n"@
}

/// The entry for worktrees that could not be created.
pub open spec fn creation_failure(error: Seq<char>) -> Seq<char> {
    "\n### Worktree creation FAILED\n- Error: "@ + error
        + "\n- ALL repo writes will be blocked for this session\n"@
}

/// The warning to a session whose worktrees could not be created.
pub open spec fn blocked_warning(error: Seq<char>) -> Seq<char> {
    "\nWARNING: Worktree creation failed. All repo writes will be blocked.\nError: "@ + error
}

/// Where the link to the latest changelog leads.
pub open spec fn symlink_target(agent: Seq<char>, id: Seq<char>) -> Seq<char> {
    "."@ + agent + "-changelog-"@ + id + ".md"@
}

/// A complaint of the hook.
pub open spec fn complaint(text: Seq<char>) -> Seq<char> {
    "muzzle/session-start: "@ + text
}

/// How a changelog begins.
pub fn header(timestamp: &str, id: &str) -> (text: String)
    ensures
        text@ == header_text(timestamp@, id@),
{
    let mut text = "## Session: ".to_string();
    text.append(timestamp);
    text.append(" (");
    text.append(id);
    text.append(")\n\n");
    text
}

/// How a changelog begins that replaces one that was not found on resume.
pub fn lost_header(timestamp: &str, id: &str) -> (text: String)
    ensures
        text@ == header_text(timestamp@, id@) + lost_note(),
{
    let mut text = header(timestamp, id);
    text.append("> **Note**: Original changelog not found — created fresh on resume.\n\n");
    text
}

/// How a changelog begins that was written again.
pub fn again_header(timestamp: &str, id: &str, source: &str) -> (text: String)
    ensures
        text@ == header_text(timestamp@, id@) + again_note(source@),
{
    let mut text = header(timestamp, id);
    let ghost head = text@;
    text.append("> **Note**: Changelog recreated after ");
    text.append(source);
    text.append(".\n\n");
    assert(text@ =~= head + again_note(source@));
    text
}

/// The three parts one after the other.
pub fn concat3(a: &str, b: &str, c: &str) -> (s: String)
    ensures
        s@ == a@ + b@ + c@,
{
    let mut s = a.to_string();
    s.append(b);
    s.append(c);
    s
}

/// A complaint of the hook, of what went wrong and why.
pub fn complain_of(what: &str, why: &str) -> (text: String)
    ensures
        text@ == complaint(what@ + why@),
{
    let text = concat3("muzzle/session-start: ", what, why);
    assert(text@ =~= complaint(what@ + why@));
    text
}

// ---------------------------------------------------------------------------
// Laws
// ---------------------------------------------------------------------------

/// No control character is in a text, so that it is a part of one line.
pub open spec fn is_printable(s: Seq<char>) -> bool {
    forall|i: int| 0 <= i < s.len() ==> (#[trigger] s[i]) as int >= 32
}

/// What JSON makes of a character has no control character in it.
proof fn lemma_json_char(c: char)
    ensures
        is_printable(json_char(c)),
{
    let s = json_char(c);
    assert(0 <= c as int / 16);
    assert(0 <= c as int % 16 < 16);
    if (c as int) < 32 {
        assert(c as int / 16 < 2);
        assert(hex_digit(c as int / 16) as int >= 48);
        assert(hex_digit(c as int % 16) as int >= 48);
    }
    assert forall|i: int| 0 <= i < s.len() implies (#[trigger] s[i]) as int >= 32 by {
        assert(i == 0 || i == 1 || i == 2 || i == 3 || i == 4 || i == 5);
    }
}

/// What JSON makes of characters has no control character in it.
proof fn lemma_json_chars(s: Seq<char>)
    ensures
        is_printable(s.flat_map(|c: char| json_char(c))),
    decreases s.len(),
{
    let f = |c: char| json_char(c);
    if s.len() == 0 {
        assert(s.flat_map(f) =~= Seq::<char>::empty());
    } else {
        let n = s.len() - 1;
        lemma_json_chars(s.take(n));
        s.lemma_flat_map_take_append(f, n);
        assert(s.take(n + 1) =~= s);
        lemma_json_char(s[n]);
    }
}

/// A JSON string has no control character in it.
proof fn lemma_json_string(s: Seq<char>)
    ensures
        is_printable(json_string(s)),
{
    lemma_json_chars(s);
}

/// Whatever the session is told, it is told in one line: the line has no line feed in
/// it, nor any other control character.
pub proof fn law_context_is_one_line(text: Seq<char>)
    ensures
        is_printable(context_line(text)),
{
    lemma_json_string("hookSpecificOutput"@);
    lemma_json_string("additionalContext"@);
    lemma_json_string(text);
    lemma_json_string("hookEventName"@);
    lemma_json_string("SessionStart"@);
}

/// What a short escape in a JSON string stands for.
pub open spec fn short_escape(c: char) -> Option<char> {
    if c == '"' || c == '\\' || c == '/' {
        Some(c)
    } else if c == 'b' {
        Some('\u{8}')
    } else if c == 'f' {
        Some('\u{c}')
    } else if c == 'n' {
        Some('\n')
    } else if c == 'r' {
        Some('\r')
    } else if c == 't' {
        Some('\t')
    } else {
        None
    }
}

/// The value of a hexadecimal digit.
pub open spec fn hex_value(c: char) -> Option<int> {
    if '0' <= c <= '9' {
        Some(c as int - 48)
    } else if 'a' <= c <= 'f' {
        Some(c as int - 87)
    } else if 'A' <= c <= 'F' {
        Some(c as int - 55)
    } else {
        None
    }
}

/// The character that four hexadecimal digits stand for, where they stand for one.
pub open spec fn hex_char(a: char, b: char, c: char, d: char) -> Option<char> {
    match (hex_value(a), hex_value(b), hex_value(c), hex_value(d)) {
        (Some(a), Some(b), Some(c), Some(d)) => {
            let code = 4096 * a + 256 * b + 16 * c + d;
            if 0xd800 <= code <= 0xdfff {
                None
            } else {
                Some(code as char)
            }
        },
        _ => None,
    }
}

/// A character before what was read.
pub open spec fn with_char(c: char, read: Option<(Seq<char>, Seq<char>)>) -> Option<
    (Seq<char>, Seq<char>),
> {
    match read {
        Some((text, rest)) => Some((seq![c] + text, rest)),
        None => None,
    }
}

/// The rest of a JSON string, up to the quote that ends it: what it stands for, and what
/// follows it. Pairs of surrogates are not read.
pub open spec fn read_chars(s: Seq<char>) -> Option<(Seq<char>, Seq<char>)>
    decreases s.len(),
{
    if s.len() == 0 || (s[0] as int) < 32 {
        None
    } else if s[0] == '"' {
        Some((Seq::empty(), s.drop_first()))
    } else if s[0] != '\\' {
        with_char(s[0], read_chars(s.drop_first()))
    } else if s.len() >= 2 && short_escape(s[1]) is Some {
        with_char(short_escape(s[1]).unwrap(), read_chars(s.skip(2)))
    } else if s.len() >= 6 && s[1] == 'u' && hex_char(s[2], s[3], s[4], s[5]) is Some {
        with_char(hex_char(s[2], s[3], s[4], s[5]).unwrap(), read_chars(s.skip(6)))
    } else {
        None
    }
}

/// A JSON string: what it stands for, and what follows it.
pub open spec fn read_string(s: Seq<char>) -> Option<(Seq<char>, Seq<char>)> {
    if s.len() > 0 && s[0] == '"' {
        read_chars(s.drop_first())
    } else {
        None
    }
}

/// The members of a compact JSON object whose values are strings, up to the brace that
/// ends it: the keys with their values, and what follows.
pub open spec fn read_members(s: Seq<char>) -> Option<
    (Seq<(Seq<char>, Seq<char>)>, Seq<char>),
>
    decreases s.len(),
{
    match read_string(s) {
        Some((key, after_key)) => if after_key.len() > 0 && after_key[0] == ':' {
            match read_string(after_key.drop_first()) {
                Some((value, rest)) => if rest.len() > 0 && rest[0] == '}' {
                    Some((seq![(key, value)], rest.drop_first()))
                } else if 0 < rest.len() < s.len() && rest[0] == ',' {
                    match read_members(rest.drop_first()) {
                        Some((members, end)) => Some((seq![(key, value)] + members, end)),
                        None => None,
                    }
                } else {
                    None
                },
                None => None,
            }
        } else {
            None
        },
        None => None,
    }
}

/// A compact JSON object of one member, whose value is an object of strings: the key, and
/// the members of the inner object.
pub open spec fn read_nested(s: Seq<char>) -> Option<
    (Seq<char>, Seq<(Seq<char>, Seq<char>)>),
> {
    if s.len() > 0 && s[0] == '{' {
        match read_string(s.drop_first()) {
            Some((key, rest)) => if rest.len() >= 2 && rest[0] == ':' && rest[1] == '{' {
                match read_members(rest.skip(2)) {
                    Some((members, end)) => if end == seq!['}'] {
                        Some((key, members))
                    } else {
                        None
                    },
                    None => None,
                }
            } else {
                None
            },
            None => None,
        }
    } else {
        None
    }
}

/// What JSON makes of a text, from its first character on.
proof fn lemma_json_chars_front(s: Seq<char>)
    requires
        s.len() > 0,
    ensures
        s.flat_map(|c: char| json_char(c)) == json_char(s[0]) + s.drop_first().flat_map(
            |c: char| json_char(c),
        ),
{
    let f = |c: char| json_char(c);
    assert(s.map_values(f).drop_first() =~= s.drop_first().map_values(f));
}

/// A character that JSON holds reads back.
proof fn lemma_read_char(c: char, rest: Seq<char>)
    ensures
        read_chars(json_char(c) + rest) == with_char(c, read_chars(rest)),
{
    let s = json_char(c) + rest;
    if json_char(c).len() == 1 {
        assert(s.drop_first() =~= rest);
    } else if json_char(c).len() == 2 {
        assert(s.skip(2) =~= rest);
    } else {
        let (a, b) = (c as int / 16, c as int % 16);
        assert(0 <= a < 2 && 0 <= b < 16 && c as int == 16 * a + b);
        assert(hex_value('0') == Some(0int));
        assert(hex_value(hex_digit(a)) == Some(a));
        assert(hex_value(hex_digit(b)) == Some(b));
        assert(s[2] == '0' && s[3] == '0' && s[4] == hex_digit(a) && s[5] == hex_digit(b));
        assert(hex_char(s[2], s[3], s[4], s[5]) == Some(c));
        assert(s.skip(6) =~= rest);
    }
}

/// Characters that JSON holds read back.
proof fn lemma_read_chars(s: Seq<char>, rest: Seq<char>)
    ensures
        read_chars(s.flat_map(|c: char| json_char(c)) + (seq!['"'] + rest)) == Some((s, rest)),
    decreases s.len(),
{
    let f = |c: char| json_char(c);
    let end = seq!['"'] + rest;
    if s.len() == 0 {
        assert(s.flat_map(f) =~= Seq::<char>::empty());
        assert(s.flat_map(f) + end =~= end);
        assert(end.drop_first() =~= rest);
        assert(s =~= Seq::<char>::empty());
    } else {
        let tail = s.drop_first();
        lemma_json_chars_front(s);
        lemma_read_chars(tail, rest);
        lemma_read_char(s[0], tail.flat_map(f) + end);
        assert(s.flat_map(f) + end =~= json_char(s[0]) + (tail.flat_map(f) + end));
        assert(seq![s[0]] + tail =~= s);
    }
}

/// A text as a JSON string reads back: the string stands for the text.
pub proof fn law_json_string_reads_back(s: Seq<char>, rest: Seq<char>)
    ensures
        read_string(json_string(s) + rest) == Some((s, rest)),
{
    let body = s.flat_map(|c: char| json_char(c));
    lemma_read_chars(s, rest);
    assert((json_string(s) + rest).drop_first() =~= body + (seq!['"'] + rest));
}

/// A member of a JSON object reads back.
proof fn lemma_read_member(key: Seq<char>, value: Seq<char>, rest: Seq<char>)
    ensures
        ({
            let read = read_string(json_member(key, value) + rest);
            &&& read matches Some((k, after_key))
            &&& k == key
            &&& after_key.len() > 0 && after_key[0] == ':'
            &&& read_string(after_key.drop_first()) == Some((value, rest))
            &&& rest.len() < (json_member(key, value) + rest).len()
        }),
{
    let after_key = seq![':'] + (json_string(value) + rest);
    law_json_string_reads_back(key, after_key);
    law_json_string_reads_back(value, rest);
    assert(json_member(key, value) + rest =~= json_string(key) + after_key);
    assert(after_key.drop_first() =~= json_string(value) + rest);
}

/// Whatever the session is told reads back: as JSON the line is an object of one member,
/// an object of two, which are the text and the name of the event.
pub proof fn law_context_reads_back(text: Seq<char>)
    ensures
        read_nested(context_line(text)) == Some(
            (
                "hookSpecificOutput"@,
                seq![
                    ("additionalContext"@, text),
                    ("hookEventName"@, "SessionStart"@),
                ],
            ),
        ),
{
    let line = context_line(text);
    let outer = "hookSpecificOutput"@;
    let first = json_member("additionalContext"@, text);
    let second = json_member("hookEventName"@, "SessionStart"@);
    let last = seq!['}', '}'];
    let tail = seq![','] + (second + last);
    let inner = first + tail;
    let after_outer = seq![':', '{'] + inner;
    law_json_string_reads_back(outer, after_outer);
    assert(line.drop_first() =~= json_string(outer) + after_outer);
    assert(after_outer.skip(2) =~= inner);
    lemma_read_member("additionalContext"@, text, tail);
    lemma_read_member("hookEventName"@, "SessionStart"@, last);
    assert(tail.drop_first() =~= second + last);
    assert(last.drop_first() =~= seq!['}']);
    assert(read_members(second + last) == Some(
        (seq![("hookEventName"@, "SessionStart"@)], seq!['}']),
    ));
    assert(seq![("additionalContext"@, text)] + seq![("hookEventName"@, "SessionStart"@)] =~= seq![
        ("additionalContext"@, text),
        ("hookEventName"@, "SessionStart"@),
    ]);
}

/// The line determines the text: what differs is told in different lines.
pub proof fn law_context_determines_text(a: Seq<char>, b: Seq<char>)
    requires
        context_line(a) == context_line(b),
    ensures
        a == b,
{
    law_context_reads_back(a);
    law_context_reads_back(b);
    let members = read_nested(context_line(a)).unwrap().1;
    assert(members[0] == ("additionalContext"@, a));
    assert(members[0] == ("additionalContext"@, b));
}

/// What the changelog, the link and the complaints say, with the texts that they are given
/// in full.
pub proof fn law_texts(
    timestamp: Seq<char>,
    id: Seq<char>,
    source: Seq<char>,
    error: Seq<char>,
    agent: Seq<char>,
)
    ensures
        header_text(timestamp, id) == "## Session: "@ + timestamp + " ("@ + id + ")\n\n"@,
        lost_note() == "> **Note**: Original changelog not found — created fresh on resume.\n\n"@,
        again_note(source) == "> **Note**: Changelog recreated after "@ + source + ".\n\n"@,
        resume_text(timestamp) == "\n---\n### Session resumed: "@ + timestamp + "\n"@,
        restore_warning(error) == "\n### Worktree restore warning\n- "@ + error + "\n"@,
        creation_failure(error) == "\n### Worktree creation FAILED\n- Error: "@ + error
            + "\n- ALL repo writes will be blocked for this session\n"@,
        blocked_warning(error)
            == "\nWARNING: Worktree creation failed. All repo writes will be blocked.\nError: "@
            + error,
        symlink_target(agent, id) == "."@ + agent + "-changelog-"@ + id + ".md"@,
        complaint(error) == "muzzle/session-start: "@ + error,
{
}

/// The announcement has a line for every worktree, in order and with its repository, its path
/// and its branch in full, between the same words.
pub proof fn law_worktrees_text(entries: Seq<SpecEntryView>)
    ensures
        worktrees_text(entries) == "\nActive worktrees for this session:\n"@ + entries.flat_map(
            |e: SpecEntryView|
                "  "@ + e.repo + ": "@ + e.wt_path + " (branch: "@ + e.branch + ")\n"@,
        )
            + "\nUse these worktree paths for ALL file operations (reads, writes, git commands).\n"@
            + "Do NOT use the main checkout directly — use the worktree path above."@,
{
    let a = |e: SpecEntryView| worktree_line(e);
    let b = |e: SpecEntryView|
        "  "@ + e.repo + ": "@ + e.wt_path + " (branch: "@ + e.branch + ")\n"@;
    assert(entries.map_values(a) =~= entries.map_values(b));
}

} // verus!
