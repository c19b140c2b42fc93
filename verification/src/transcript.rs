//! Transcripts: the messages of one chat over a time, as Markdown.

use crate::json::{
    find_member, json_members, lemma_member_at, member_at, member_views, parse_members, JsonMember,
    MemberView,
};
use crate::kakao::media_resolver::{join_path, joined};
use crate::text::number::{decimal, decimal_usize};
use crate::text::split::{
    after_prefix, join, join_strings, law_join_holds_every_part, part_start, starts_with, views,
};
use crate::text::trim::{start_trimmed, trim_start};
use crate::text::{chars_of, code_point, owned, same, string_of, white_space};
use vstd::prelude::*;

verus! {

/// A message of a chat.
#[derive(Debug, Clone)]
pub struct TranscriptMessage {
    pub chat_name: String,
    pub message_id: String,
    pub sender_nickname: String,
    pub timestamp: String,
    pub text: String,
    pub message_type: String,
}

/// What an export wrote.
#[derive(Debug, Clone)]
pub struct TranscriptReport {
    pub chat_id: String,
    pub chat_name: String,
    pub messages: usize,
    pub feed_skipped: usize,
    /// The file; none where there was nothing to write.
    pub path: Option<String>,
    pub first_message_id: Option<String>,
    pub last_message_id: Option<String>,
}

// ---------------------------------------------------------------------------
// System feeds
// ---------------------------------------------------------------------------

/// Whether an object has one of the keys of a membership event.
pub open spec fn membership(members: Seq<MemberView>) -> bool {
    ||| member_at(members, "feedType"@) is Some
    ||| member_at(members, "inviter"@) is Some
    ||| member_at(members, "member"@) is Some
    ||| member_at(members, "leaver"@) is Some
    ||| member_at(members, "members"@) is Some
}

/// Whether a message is a notice of the system (somebody joined, left or was
/// invited), not something that a person wrote: it has the system's type, and
/// its text is a JSON object with one of the keys of such an event.
pub open spec fn feed(message_type: Seq<char>, text: Seq<char>) -> bool {
    let body = trim_start(text);
    &&& message_type == "type_0"@
    &&& body.len() > 0 && body[0] == '{'
    &&& json_members(body) matches Some(members) && membership(members)
}

/// Exec form of [`membership`].
pub fn has_membership_key(members: &[JsonMember]) -> (r: bool)
    ensures
        r == membership(member_views(members@)),
{
    find_member(members, "feedType").is_some() || find_member(members, "inviter").is_some()
        || find_member(members, "member").is_some() || find_member(members, "leaver").is_some()
        || find_member(members, "members").is_some()
}

/// Whether a message is a notice of the system.
pub fn is_feed(message_type: &str, text: &str) -> (r: bool)
    ensures
        r == feed(message_type@, text@),
{
    if !same(message_type, "type_0") {
        return false;
    }
    let chars = chars_of(text);
    let body = start_trimmed(chars.as_slice());
    if body.len() == 0 || body[0] != '{' {
        return false;
    }
    let body_text = string_of(body.as_slice());
    match parse_members(body_text.as_str()) {
        Some(members) => has_membership_key(members.as_slice()),
        None => false,
    }
}

/// Whether each message is a notice of the system.
pub open spec fn feed_flags(messages: Seq<TranscriptMessage>) -> Seq<bool> {
    messages.map_values(|m: TranscriptMessage| feed(m.message_type@, m.text@))
}

// ---------------------------------------------------------------------------
// File names
// ---------------------------------------------------------------------------

/// Whether a character stays in a file name.
pub open spec fn plain(c: char) -> bool {
    ('a' <= c <= 'z') || ('A' <= c <= 'Z') || ('0' <= c <= '9') || c == '-' || c == '_'
}

/// A text with every other character replaced by an underscore.
pub open spec fn plain_name(s: Seq<char>) -> Seq<char> {
    if s.len() == 0 {
        "unnamed"@
    } else {
        s.map_values(
            |c: char|
                if plain(c) {
                    c
                } else {
                    '_'
                },
        )
    }
}

/// Exec form of [`plain_name`].
pub fn sanitize(value: &str) -> (r: String)
    ensures
        r@ == plain_name(value@),
{
    let chars = chars_of(value);
    if chars.len() == 0 {
        return owned("unnamed");
    }
    let ghost expected = plain_name(value@);
    let mut r: String = String::new();
    for i in 0..chars.len()
        invariant
            chars@ == value@,
            chars@.len() > 0,
            expected == plain_name(value@),
            r@ == expected.take(i as int),
    {
        let c: char = chars[i];
        let u: u32 = code_point(c);
        let keep = (97 <= u && u <= 122) || (65 <= u && u <= 90) || (48 <= u && u <= 57) || c == '-'
            || c == '_';
        assert(keep == plain(c));
        if keep {
            r.push(c);
        } else {
            r.push('_');
        }
        assert(r@ =~= expected.take(i + 1));
    }
    assert(expected.take(chars@.len() as int) =~= expected);
    r
}

/// A message id without the chat that it starts with.
pub open spec fn bare_id(message_id: Seq<char>, chat_id: Seq<char>) -> Seq<char> {
    if starts_with(message_id, chat_id) && starts_with(
        message_id.skip(chat_id.len() as int),
        "-"@,
    ) {
        message_id.skip(chat_id.len() as int).skip("-"@.len() as int)
    } else {
        message_id
    }
}

/// Exec form of [`bare_id`].
pub fn strip_chat_prefix(message_id: &str, chat_id: &str) -> (r: String)
    ensures
        r@ == bare_id(message_id@, chat_id@),
{
    match after_prefix(message_id, chat_id) {
        Some(rest) => match after_prefix(rest.as_str(), "-") {
            Some(log_id) => log_id,
            None => owned(message_id),
        },
        None => owned(message_id),
    }
}

/// The name of the file for a range of messages of a chat.
pub open spec fn file_name(chat_id: Seq<char>, first: Seq<char>, last: Seq<char>) -> Seq<char> {
    plain_name(chat_id) + "-"@ + plain_name(bare_id(first, chat_id)) + "-"@ + plain_name(
        bare_id(last, chat_id),
    ) + ".md"@
}

/// A file name of a transcript holds nothing that could surprise a shell or a
/// file system, whatever the ids are.
pub proof fn law_transcript_name_is_plain(chat_id: Seq<char>, first: Seq<char>, last: Seq<char>)
    ensures
        forall|i: int|
            0 <= i < file_name(chat_id, first, last).len() ==> plain(
                #[trigger] file_name(chat_id, first, last)[i],
            ) || file_name(chat_id, first, last)[i] == '.',
        file_name(chat_id, first, last)[0] != '.',
{
    reveal_strlit("unnamed");
    reveal_strlit("-");
    reveal_strlit(".md");
    let a = plain_name(chat_id);
    let b = plain_name(bare_id(first, chat_id));
    let c = plain_name(bare_id(last, chat_id));
    lemma_plain_name(chat_id);
    lemma_plain_name(bare_id(first, chat_id));
    lemma_plain_name(bare_id(last, chat_id));
    let all = file_name(chat_id, first, last);
    let n = a.len() as int;
    let m = n + 1 + b.len();
    let k = m + 1 + c.len();
    assert forall|i: int| 0 <= i < all.len() implies plain(#[trigger] all[i]) || all[i]
        == '.' by {
        if i < n {
            assert(all[i] == a[i]);
        } else if i == n {
            assert(all[i] == "-"@[0]);
        } else if i < m {
            assert(all[i] == b[i - n - 1]);
        } else if i == m {
            assert(all[i] == "-"@[0]);
        } else if i < k {
            assert(all[i] == c[i - m - 1]);
        } else {
            assert(all[i] == ".md"@[i - k]);
        }
    }
    assert(all[0] == a[0]);
    assert(plain(a[0]));
}

proof fn lemma_plain_name(s: Seq<char>)
    ensures
        plain_name(s).len() > 0,
        forall|i: int| 0 <= i < plain_name(s).len() ==> plain(#[trigger] plain_name(s)[i]),
{
    reveal_strlit("unnamed");
}

// ---------------------------------------------------------------------------
// The export
// ---------------------------------------------------------------------------

/// The places of the messages that are no notices, in order.
pub open spec fn kept_places(flags: Seq<bool>) -> Seq<int>
    decreases flags.len(),
{
    if flags.len() == 0 {
        seq![]
    } else {
        let front = kept_places(flags.drop_last());
        if flags.last() {
            front
        } else {
            front.push(flags.len() - 1)
        }
    }
}

/// The line of a message.
pub open spec fn message_line(m: TranscriptMessage) -> Seq<char> {
    "**["@ + m.timestamp@ + "] "@ + m.sender_nickname@ + "**: "@ + m.text@
}

/// The lines of the kept messages, each with an empty line behind it.
pub open spec fn message_lines(messages: Seq<TranscriptMessage>, flags: Seq<bool>) -> Seq<Seq<char>>
    decreases messages.len(),
{
    if messages.len() == 0 || flags.len() != messages.len() {
        seq![]
    } else {
        let front = message_lines(messages.drop_last(), flags.drop_last());
        if flags.last() {
            front
        } else {
            front.push(message_line(messages.last())).push(seq![])
        }
    }
}

/// The last name that is not empty, or `fallback`.
pub open spec fn last_name(messages: Seq<TranscriptMessage>, fallback: Seq<char>) -> Seq<char>
    decreases messages.len(),
{
    if messages.len() == 0 {
        fallback
    } else if messages.last().chat_name@.len() > 0 {
        messages.last().chat_name@
    } else {
        last_name(messages.drop_last(), fallback)
    }
}

/// The head of a transcript.
pub open spec fn head_lines(
    chat_name: Seq<char>,
    chat_id: Seq<char>,
    kept: nat,
    skipped: nat,
    first: Seq<char>,
    last: Seq<char>,
) -> Seq<Seq<char>> {
    let head = seq![
        "# "@ + chat_name + " (chat "@ + chat_id + ")"@,
        seq![],
        "- messages: "@ + decimal(kept),
        "- range: "@ + first + " .. "@ + last,
    ];
    if skipped > 0 {
        head.push("- system feed messages skipped: "@ + decimal(skipped)).push(seq![])
    } else {
        head.push(seq![])
    }
}

/// What an export writes.
#[derive(Debug)]
pub struct TranscriptFile {
    pub path: String,
    pub body: String,
}

/// Whether `report` and `file` are the export of the messages, of which those
/// that are flagged are notices of the system.
pub open spec fn exports(
    report: TranscriptReport,
    file: Option<TranscriptFile>,
    chat_id: Seq<char>,
    messages: Seq<TranscriptMessage>,
    flags: Seq<bool>,
    out_dir: Seq<char>,
) -> bool {
    let kept = kept_places(flags);
    let skipped = (messages.len() - kept.len()) as nat;
    let name = last_name(messages, chat_id);
    &&& report.chat_id@ == chat_id
    &&& report.chat_name@ == name
    &&& report.messages == kept.len()
    &&& report.feed_skipped == skipped
    &&& if kept.len() == 0 {
        &&& file is None
        &&& report.path is None
        &&& report.first_message_id is None
        &&& report.last_message_id is None
    } else {
        let first = messages[kept[0]].message_id@;
        let last = messages[kept.last()].message_id@;
        &&& report.first_message_id matches Some(id) && id@ == first
        &&& report.last_message_id matches Some(id) && id@ == last
        &&& file matches Some(f) && f.path@ == joined(out_dir, file_name(chat_id, first, last))
            && f.body@ == join(
            head_lines(name, chat_id, kept.len(), skipped, first, last) + message_lines(
                messages,
                flags,
            ),
            "\n"@,
        ) && report.path == Some(f.path)
    }
}

/// The kept places are places, ascending.
proof fn lemma_kept_places(flags: Seq<bool>)
    ensures
        kept_places(flags).len() <= flags.len(),
        forall|k: int|
            0 <= k < kept_places(flags).len() ==> 0 <= (#[trigger] kept_places(flags)[k])
                < flags.len() && !flags[kept_places(flags)[k]],
    decreases flags.len(),
{
    if flags.len() > 0 {
        let rest = flags.drop_last();
        lemma_kept_places(rest);
        let front = kept_places(rest);
        assert forall|k: int| 0 <= k < kept_places(flags).len() implies 0 <= (
        #[trigger] kept_places(flags)[k]) < flags.len() && !flags[kept_places(flags)[k]] by {
            if k < front.len() {
                assert(kept_places(flags)[k] == front[k]);
                assert(rest[front[k]] == flags[front[k]]);
            }
        }
    }
}

/// The line of a message.
fn line_of(m: &TranscriptMessage) -> (line: String)
    ensures
        line@ == message_line(*m),
{
    let mut line = owned("**[");
    line.append(m.timestamp.as_str());
    line.append("] ");
    line.append(m.sender_nickname.as_str());
    line.append("**: ");
    line.append(m.text.as_str());
    line
}

/// The head of a transcript.
fn head_of(chat_name: &str, chat_id: &str, kept: usize, skipped: usize, first: &str, last: &str) -> (lines: Vec<String>)
    ensures
        views(lines@) == head_lines(
            chat_name@,
            chat_id@,
            kept as nat,
            skipped as nat,
            first@,
            last@,
        ),
{
    let mut title = owned("# ");
    title.append(chat_name);
    title.append(" (chat ");
    title.append(chat_id);
    title.append(")");
    let count = decimal_usize(kept);
    let mut range = owned("- range: ");
    range.append(first);
    range.append(" .. ");
    range.append(last);
    let mut lines: Vec<String> = Vec::new();
    lines.push(title);
    lines.push(String::new());
    lines.push(owned("- messages: ").concat(count.as_str()));
    lines.push(range);
    if skipped > 0 {
        let number = decimal_usize(skipped);
        lines.push(owned("- system feed messages skipped: ").concat(number.as_str()));
    }
    lines.push(String::new());
    proof {
        assert(views(lines@) =~= head_lines(
            chat_name@,
            chat_id@,
            kept as nat,
            skipped as nat,
            first@,
            last@,
        ));
    }
    lines
}

/// Writes down the messages of a chat, `flags` telling which are notices of the
/// system. Where nothing is left there is no file.
pub fn render_transcript(
    chat_id: &str,
    messages: &[TranscriptMessage],
    flags: &[bool],
    out_dir: &str,
) -> (r: (TranscriptReport, Option<TranscriptFile>))
    requires
        flags@.len() == messages@.len(),
    ensures
        exports(r.0, r.1, chat_id@, messages@, flags@, out_dir@),
{
    let mut chat_name: String = owned(chat_id);
    let mut lines: Vec<String> = Vec::new();
    let mut kept: usize = 0;
    let mut first: usize = 0;
    let mut last: usize = 0;
    let total: usize = messages.len();
    proof {
        assert(views(lines@) =~= Seq::<Seq<char>>::empty());
    }
    for i in 0..total
        invariant
            total == messages@.len() == flags@.len(),
            chat_name@ == last_name(messages@.take(i as int), chat_id@),
            kept == kept_places(flags@.take(i as int)).len(),
            kept <= i,
            kept > 0 ==> first == kept_places(flags@.take(i as int))[0] && last == kept_places(
                flags@.take(i as int),
            ).last() && first < i && last < i,
            views(lines@) == message_lines(messages@.take(i as int), flags@.take(i as int)),
    {
        let message: &TranscriptMessage = &messages[i];
        proof {
            assert(messages@.take(i + 1).drop_last() =~= messages@.take(i as int));
            assert(flags@.take(i + 1).drop_last() =~= flags@.take(i as int));
        }
        if !message.chat_name.as_str().is_empty() {
            chat_name = message.chat_name.clone();
        }
        if !flags[i] {
            if kept == 0 {
                first = i;
            }
            last = i;
            kept = kept + 1;
            let line = line_of(message);
            let blank: String = String::new();
            let ghost before = views(lines@);
            lines.push(line);
            lines.push(blank);
            proof {
                assert(views(lines@) =~= before.push(line@).push(blank@));
            }
        }
    }
    proof {
        assert(messages@.take(total as int) =~= messages@);
        assert(flags@.take(total as int) =~= flags@);
    }
    if kept == 0 {
        return (
            TranscriptReport {
                chat_id: owned(chat_id),
                chat_name,
                messages: 0,
                feed_skipped: total,
                path: None,
                first_message_id: None,
                last_message_id: None,
            },
            None,
        );
    }
    let first_id = messages[first].message_id.clone();
    let last_id = messages[last].message_id.clone();
    let skipped: usize = total - kept;
    let mut body_lines = head_of(
        chat_name.as_str(),
        chat_id,
        kept,
        skipped,
        first_id.as_str(),
        last_id.as_str(),
    );
    let ghost head = views(body_lines@);
    let ghost rest = views(lines@);
    body_lines.append(&mut lines);
    proof {
        assert(views(body_lines@) =~= head + rest);
    }
    let body = join_strings(body_lines.as_slice(), "\n");
    let chat_part = sanitize(chat_id);
    let first_bare = strip_chat_prefix(first_id.as_str(), chat_id);
    let last_bare = strip_chat_prefix(last_id.as_str(), chat_id);
    let first_part = sanitize(first_bare.as_str());
    let last_part = sanitize(last_bare.as_str());
    let mut name = chat_part;
    name.append("-");
    name.append(first_part.as_str());
    name.append("-");
    name.append(last_part.as_str());
    name.append(".md");
    let path = join_path(out_dir, name.as_str());
    (
        TranscriptReport {
            chat_id: owned(chat_id),
            chat_name,
            messages: kept,
            feed_skipped: skipped,
            path: Some(path.clone()),
            first_message_id: Some(first_id),
            last_message_id: Some(last_id),
        },
        Some(TranscriptFile { path, body }),
    )
}

/// The transcript of the messages of a chat.
pub fn export_transcript(chat_id: &str, messages: &[TranscriptMessage], out_dir: &str) -> (r: (
    TranscriptReport,
    Option<TranscriptFile>,
))
    ensures
        exports(r.0, r.1, chat_id@, messages@, feed_flags(messages@), out_dir@),
{
    let ghost expected = feed_flags(messages@);
    let mut flags: Vec<bool> = Vec::new();
    for i in 0..messages.len()
        invariant
            expected == feed_flags(messages@),
            flags@ == expected.take(i as int),
    {
        flags.push(is_feed(messages[i].message_type.as_str(), messages[i].text.as_str()));
        proof {
            assert(flags@ =~= expected.take(i + 1));
        }
    }
    proof {
        assert(expected.take(messages@.len() as int) =~= expected);
    }
    render_transcript(chat_id, messages, flags.as_slice(), out_dir)
}

/// A time without messages of people writes no file, so it cannot overwrite an
/// earlier transcript.
pub proof fn law_nothing_to_say_writes_nothing(
    report: TranscriptReport,
    file: Option<TranscriptFile>,
    chat_id: Seq<char>,
    messages: Seq<TranscriptMessage>,
    flags: Seq<bool>,
    out_dir: Seq<char>,
)
    requires
        exports(report, file, chat_id, messages, flags, out_dir),
        flags.len() == messages.len(),
        forall|i: int| 0 <= i < flags.len() ==> flags[i],
    ensures
        file is None,
        report.path is None,
        report.messages == 0,
{
    lemma_kept_places(flags);
    if kept_places(flags).len() > 0 {
        let k = kept_places(flags)[0];
        assert(flags[k]);
    }
}

/// The same messages give the same file with the same bytes.
pub proof fn law_export_is_repeatable(
    one: (TranscriptReport, Option<TranscriptFile>),
    two: (TranscriptReport, Option<TranscriptFile>),
    chat_id: Seq<char>,
    messages: Seq<TranscriptMessage>,
    flags: Seq<bool>,
    out_dir: Seq<char>,
)
    requires
        exports(one.0, one.1, chat_id, messages, flags, out_dir),
        exports(two.0, two.1, chat_id, messages, flags, out_dir),
    ensures
        match (one.1, two.1) {
            (Some(a), Some(b)) => a.path@ == b.path@ && a.body@ == b.body@,
            (None, None) => true,
            _ => false,
        },
{
}

/// Whether `message_id` is the id that the source gives a message of the chat:
/// the chat, a hyphen and a number.
pub open spec fn numbered(message_id: Seq<char>, chat_id: Seq<char>) -> bool {
    exists|number: Seq<char>| #[trigger] digits(number) && message_id == chat_id + "-"@ + number
}

/// Whether the text is digits alone, one at least.
pub open spec fn digits(s: Seq<char>) -> bool {
    s.len() > 0 && forall|i: int| 0 <= i < s.len() ==> '0' <= #[trigger] s[i] <= '9'
}

/// What is left of a numbered id is its number, and stays as it is.
proof fn lemma_numbered(number: Seq<char>, chat_id: Seq<char>)
    requires
        digits(number),
    ensures
        plain_name(bare_id(chat_id + "-"@ + number, chat_id)) == number,
{
    reveal_strlit("-");
    let id = chat_id + "-"@ + number;
    let rest = id.skip(chat_id.len() as int);
    assert(id.subrange(0, chat_id.len() as int) =~= chat_id);
    assert(rest =~= "-"@ + number);
    assert(rest.subrange(0, 1) =~= "-"@);
    assert(rest.skip(1) =~= number);
    assert(plain_name(number) =~= number);
}

/// Two ranges of numbers that are written alike are the same.
proof fn lemma_ranges(a: Seq<char>, b: Seq<char>, c: Seq<char>, d: Seq<char>)
    requires
        digits(a),
        digits(b),
        digits(c),
        digits(d),
        a + "-"@ + b == c + "-"@ + d,
    ensures
        a == c,
        b == d,
{
    reveal_strlit("-");
    let one = a + "-"@ + b;
    let two = c + "-"@ + d;
    assert(one[a.len() as int] == '-');
    assert(two[c.len() as int] == '-');
    if a.len() < c.len() {
        assert(two[a.len() as int] == c[a.len() as int]);
    }
    if c.len() < a.len() {
        assert(one[c.len() as int] == a[c.len() as int]);
    }
    assert(a =~= one.take(a.len() as int));
    assert(c =~= two.take(a.len() as int));
    assert(b =~= one.skip(a.len() as int + 1));
    assert(d =~= two.skip(a.len() as int + 1));
}

/// Two names in one directory are written alike only where they are the same.
proof fn lemma_joined(dir: Seq<char>, one: Seq<char>, two: Seq<char>)
    requires
        one.len() > 0 && one[0] != '/',
        two.len() > 0 && two[0] != '/',
        joined(dir, one) == joined(dir, two),
    ensures
        one == two,
{
    let n = joined(dir, one).len() - one.len();
    assert(joined(dir, one).skip(n) =~= one);
    assert(joined(dir, two).skip(n) =~= two);
}

/// Two exports of a chat into one directory go to the same file exactly when
/// their ranges are the same: an export never overwrites that of another range.
/// The ids are as the source gives them.
pub proof fn law_one_range_one_file(
    one: (TranscriptReport, Option<TranscriptFile>),
    two: (TranscriptReport, Option<TranscriptFile>),
    chat_id: Seq<char>,
    messages: (Seq<TranscriptMessage>, Seq<TranscriptMessage>),
    flags: (Seq<bool>, Seq<bool>),
    out_dir: Seq<char>,
)
    requires
        exports(one.0, one.1, chat_id, messages.0, flags.0, out_dir),
        exports(two.0, two.1, chat_id, messages.1, flags.1, out_dir),
        flags.0.len() == messages.0.len() && flags.1.len() == messages.1.len(),
        forall|i: int|
            0 <= i < messages.0.len() ==> numbered(
                (#[trigger] messages.0[i]).message_id@,
                chat_id,
            ),
        forall|i: int|
            0 <= i < messages.1.len() ==> numbered(
                (#[trigger] messages.1[i]).message_id@,
                chat_id,
            ),
    ensures
        match (one.1, two.1) {
            (Some(a), Some(b)) => a.path@ == b.path@ <==> one.0.first_message_id->0@
                == two.0.first_message_id->0@ && one.0.last_message_id->0@
                == two.0.last_message_id->0@,
            _ => true,
        },
{
    if let (Some(f), Some(g)) = (one.1, two.1) {
        lemma_kept_places(flags.0);
        lemma_kept_places(flags.1);
        let (k, l) = (kept_places(flags.0), kept_places(flags.1));
        assert(k.len() > 0 && l.len() > 0);
        let first = messages.0[k[0]].message_id@;
        let last = messages.0[k.last()].message_id@;
        let other_first = messages.1[l[0]].message_id@;
        let other_last = messages.1[l.last()].message_id@;
        let a = choose|n: Seq<char>| #[trigger] digits(n) && first == chat_id + "-"@ + n;
        let b = choose|n: Seq<char>| #[trigger] digits(n) && last == chat_id + "-"@ + n;
        let c = choose|n: Seq<char>| #[trigger] digits(n) && other_first == chat_id + "-"@ + n;
        let d = choose|n: Seq<char>| #[trigger] digits(n) && other_last == chat_id + "-"@ + n;
        assert(numbered(first, chat_id) && numbered(last, chat_id));
        assert(numbered(other_first, chat_id) && numbered(other_last, chat_id));
        lemma_numbered(a, chat_id);
        lemma_numbered(b, chat_id);
        lemma_numbered(c, chat_id);
        lemma_numbered(d, chat_id);
        let x = file_name(chat_id, first, last);
        let y = file_name(chat_id, other_first, other_last);
        law_transcript_name_is_plain(chat_id, first, last);
        law_transcript_name_is_plain(chat_id, other_first, other_last);
        assert(x[0] != '/' && y[0] != '/');
        if f.path@ == g.path@ {
            lemma_joined(out_dir, x, y);
            let lead = plain_name(chat_id) + "-"@;
            let n = lead.len() as int;
            assert(x =~= lead + (a + "-"@ + b) + ".md"@);
            assert(y =~= lead + (c + "-"@ + d) + ".md"@);
            let m = x.len() - ".md"@.len();
            assert(x.subrange(n, m) =~= a + "-"@ + b);
            assert(y.subrange(n, m) =~= c + "-"@ + d);
            lemma_ranges(a, b, c, d);
        }
    }
}

/// A message of a type that people send is kept, whatever its text looks like.
pub proof fn law_only_the_systems_type_is_skipped(message_type: Seq<char>, text: Seq<char>)
    ensures
        message_type != "type_0"@ ==> !feed(message_type, text),
{
}

/// The kept places are those of the messages that are no notices, each once and
/// in order.
pub proof fn law_only_notices_are_left_out(flags: Seq<bool>)
    ensures
        forall|i: int|
            0 <= i < flags.len() ==> (!#[trigger] flags[i] <==> kept_places(flags).contains(i)),
        forall|k: int|
            0 <= k < kept_places(flags).len() ==> 0 <= #[trigger] kept_places(flags)[k]
                < flags.len() && !flags[kept_places(flags)[k]],
        forall|k: int, l: int|
            0 <= k < l < kept_places(flags).len() ==> #[trigger] kept_places(flags)[k]
                < #[trigger] kept_places(flags)[l],
    decreases flags.len(),
{
    if flags.len() > 0 {
        let rest = flags.drop_last();
        law_only_notices_are_left_out(rest);
        lemma_kept_places(flags);
        let front = kept_places(rest);
        let all = kept_places(flags);
        assert forall|i: int| 0 <= i < flags.len() implies (!#[trigger] flags[i]
            <==> all.contains(i)) by {
            if i < rest.len() {
                assert(rest[i] == flags[i]);
                if front.contains(i) {
                    let k = choose|k: int| 0 <= k < front.len() && front[k] == i;
                    assert(all[k] == i);
                }
                if all.contains(i) {
                    let k = choose|k: int| 0 <= k < all.len() && all[k] == i;
                    assert(front[k] == i);
                }
            } else {
                if !flags[i] {
                    assert(all[front.len() as int] == i);
                } else if all.contains(i) {
                    let k = choose|k: int| 0 <= k < all.len() && all[k] == i;
                    assert(front[k] == i);
                }
            }
        }
        assert forall|k: int, l: int| 0 <= k < l < all.len() implies #[trigger] all[k]
            < #[trigger] all[l] by {
            assert(all[k] == front[k]);
            if l < front.len() {
                assert(all[l] == front[l]);
            }
        }
    }
}

/// The lines of the kept messages stand at the even places.
proof fn lemma_message_lines(messages: Seq<TranscriptMessage>, flags: Seq<bool>, k: int)
    requires
        flags.len() == messages.len(),
        0 <= k < kept_places(flags).len(),
    ensures
        message_lines(messages, flags).len() == 2 * kept_places(flags).len(),
        message_lines(messages, flags)[2 * k] == message_line(messages[kept_places(flags)[k]]),
    decreases messages.len(),
{
    let front = messages.drop_last();
    let rest = flags.drop_last();
    let before = kept_places(rest);
    lemma_kept_places(rest);
    if before.len() > 0 {
        let j = if k < before.len() {
            k
        } else {
            0
        };
        lemma_message_lines(front, rest, j);
        if k < before.len() {
            assert(front[before[k]] == messages[before[k]]);
        }
    } else {
        lemma_no_lines(front, rest);
    }
}

proof fn lemma_no_lines(messages: Seq<TranscriptMessage>, flags: Seq<bool>)
    requires
        flags.len() == messages.len(),
        kept_places(flags).len() == 0,
    ensures
        message_lines(messages, flags).len() == 0,
    decreases messages.len(),
{
    if messages.len() > 0 {
        lemma_no_lines(messages.drop_last(), flags.drop_last());
    }
}

/// Whether a text has `piece` at `at`.
pub open spec fn written_at(body: Seq<char>, piece: Seq<char>, at: int) -> bool {
    0 <= at && at + piece.len() <= body.len() && body.subrange(at, at + piece.len()) == piece
}

/// Whether a text tells of a message: when, who and what, one after the other.
pub open spec fn tells(body: Seq<char>, m: TranscriptMessage, at: int, by: int, what: int) -> bool {
    &&& written_at(body, m.timestamp@, at)
    &&& written_at(body, m.sender_nickname@, by)
    &&& written_at(body, m.text@, what)
    &&& at + m.timestamp@.len() <= by
    &&& by + m.sender_nickname@.len() <= what
}

/// What people wrote is in the transcript: every message that is no notice, whole,
/// with its time and its sender before it.
pub proof fn law_the_transcript_holds_every_message(
    report: TranscriptReport,
    file: Option<TranscriptFile>,
    chat_id: Seq<char>,
    messages: Seq<TranscriptMessage>,
    flags: Seq<bool>,
    out_dir: Seq<char>,
    i: int,
)
    requires
        exports(report, file, chat_id, messages, flags, out_dir),
        flags.len() == messages.len(),
        0 <= i < messages.len(),
        !flags[i],
    ensures
        file is Some,
        exists|at: int, by: int, what: int| #[trigger]
            tells(file->0.body@, messages[i], at, by, what),
{
    law_only_notices_are_left_out(flags);
    let kept = kept_places(flags);
    let k = choose|k: int| 0 <= k < kept.len() && kept[k] == i;
    lemma_message_lines(messages, flags, k);
    let first = messages[kept[0]].message_id@;
    let last = messages[kept.last()].message_id@;
    let head = head_lines(
        last_name(messages, chat_id),
        chat_id,
        kept.len(),
        (messages.len() - kept.len()) as nat,
        first,
        last,
    );
    let lines = head + message_lines(messages, flags);
    let body = file->0.body@;
    let line = head.len() + 2 * k;
    assert(lines[line] == message_line(messages[i]));
    law_join_holds_every_part(lines, "\n"@);
    let start = part_start(lines, "\n"@.len(), line);
    let m = messages[i];
    let whole = message_line(m);
    assert(body.subrange(start, start + whole.len()) == whole);
    reveal_strlit("**[");
    reveal_strlit("] ");
    reveal_strlit("**: ");
    let a = 3int;
    let b = a + m.timestamp@.len() + 2;
    let c = b + m.sender_nickname@.len() + 4;
    assert(whole.len() == c + m.text@.len());
    assert(whole.subrange(a, a + m.timestamp@.len()) =~= m.timestamp@);
    assert(whole.subrange(b, b + m.sender_nickname@.len()) =~= m.sender_nickname@);
    assert(whole.subrange(c, c + m.text@.len()) =~= m.text@);
    lemma_within(body, whole, start, a, m.timestamp@);
    lemma_within(body, whole, start, b, m.sender_nickname@);
    lemma_within(body, whole, start, c, m.text@);
    assert(tells(body, m, start + a, start + b, start + c));
}

/// What is in a piece is in what holds the piece.
proof fn lemma_within(body: Seq<char>, piece: Seq<char>, start: int, at: int, inner: Seq<char>)
    requires
        written_at(body, piece, start),
        written_at(piece, inner, at),
    ensures
        written_at(body, inner, start + at),
{
    assert(body.subrange(start + at, start + at + inner.len()) =~= piece.subrange(
        at,
        at + inner.len(),
    ));
}

/// A report counts what it wrote: the messages that are no notices, and the
/// notices; it names the first and the last message that it wrote, and the file.
pub proof fn law_the_report_tells_what_was_written(
    report: TranscriptReport,
    file: Option<TranscriptFile>,
    chat_id: Seq<char>,
    messages: Seq<TranscriptMessage>,
    flags: Seq<bool>,
    out_dir: Seq<char>,
    i: int,
)
    requires
        exports(report, file, chat_id, messages, flags, out_dir),
        flags.len() == messages.len(),
        0 <= i < messages.len(),
    ensures
        report.messages + report.feed_skipped == messages.len(),
        report.chat_id@ == chat_id,
        report.messages == 0 <==> file is None,
        !flags[i] && (forall|j: int| 0 <= j < i ==> #[trigger] flags[j]) ==> (
        report.first_message_id matches Some(id) && id@ == messages[i].message_id@),
        !flags[i] && (forall|j: int| i < j < messages.len() ==> #[trigger] flags[j]) ==> (
        report.last_message_id matches Some(id) && id@ == messages[i].message_id@),
        file matches Some(f) ==> report.path == Some(f.path),
{
    law_only_notices_are_left_out(flags);
    let kept = kept_places(flags);
    lemma_kept_places(flags);
    if !flags[i] {
        let k = choose|k: int| 0 <= k < kept.len() && kept[k] == i;
        if forall|j: int| 0 <= j < i ==> #[trigger] flags[j] {
            if k > 0 {
                assert(kept[0] < kept[k]);
                assert(flags[kept[0]]);
            }
        }
        if forall|j: int| i < j < messages.len() ==> #[trigger] flags[j] {
            if k < kept.len() - 1 {
                let l = kept.len() - 1;
                assert(kept[k] < kept[l]);
                assert(flags[kept[l]]);
            }
        }
    }
}

/// A transcript goes under the name that the chat had last, or its id where it
/// never had one; its heading has both.
pub proof fn law_the_last_name_counts(
    messages: Seq<TranscriptMessage>,
    m: TranscriptMessage,
    fallback: Seq<char>,
    kept: nat,
    skipped: nat,
    first: Seq<char>,
    last: Seq<char>,
)
    ensures
        m.chat_name@.len() > 0 ==> last_name(messages.push(m), fallback) == m.chat_name@,
        m.chat_name@.len() == 0 ==> last_name(messages.push(m), fallback) == last_name(
            messages,
            fallback,
        ),
        last_name(seq![], fallback) == fallback,
        ({
            let name = last_name(messages, fallback);
            let title = head_lines(name, fallback, kept, skipped, first, last)[0];
            &&& title.take(2) == seq!['#', ' ']
            &&& written_at(title, name, 2)
            &&& written_at(title, fallback, title.len() - fallback.len() - 1)
        }),
{
    assert(messages.push(m).drop_last() =~= messages);
    let name = last_name(messages, fallback);
    let title = head_lines(name, fallback, kept, skipped, first, last)[0];
    reveal_strlit("# ");
    reveal_strlit(" (chat ");
    reveal_strlit(")");
    assert(title == "# "@ + name + " (chat "@ + fallback + ")"@);
    assert(title.take(2) =~= seq!['#', ' ']);
    assert(title.subrange(2, 2int + name.len()) =~= name);
    let at = title.len() - fallback.len() - 1;
    assert(title.subrange(at, at + fallback.len()) =~= fallback);
}

/// The head of a transcript says how many messages it has and which range, and
/// how many notices were left out where any were.
pub proof fn law_the_head_counts(
    name: Seq<char>,
    chat_id: Seq<char>,
    kept: nat,
    skipped: nat,
    first: Seq<char>,
    last: Seq<char>,
)
    ensures
        ({
            let head = head_lines(name, chat_id, kept, skipped, first, last);
            &&& head.len() == if skipped > 0 {
                6int
            } else {
                5
            }
            &&& written_at(head[2], decimal(kept), head[2].len() - decimal(kept).len())
            &&& written_at(head[3], last, head[3].len() - last.len())
            &&& written_at(head[3], first, head[3].len() - last.len() - 4 - first.len())
            &&& skipped > 0 ==> written_at(
                head[4],
                decimal(skipped),
                head[4].len() - decimal(skipped).len(),
            )
            &&& head[1].len() == 0
            &&& head[head.len() - 1].len() == 0
        }),
{
    let head = head_lines(name, chat_id, kept, skipped, first, last);
    reveal_strlit(" .. ");
    let a = head[2].len() - decimal(kept).len();
    assert(head[2].subrange(a, a + decimal(kept).len()) =~= decimal(kept));
    let b = head[3].len() - last.len();
    assert(head[3].subrange(b, b + last.len()) =~= last);
    let c = b - 4 - first.len();
    assert(head[3].subrange(c, c + first.len()) =~= first);
    if skipped > 0 {
        let d = head[4].len() - decimal(skipped).len();
        assert(head[4].subrange(d, d + decimal(skipped).len()) =~= decimal(skipped));
    }
}

/// A plain name is as long as what it stands for and keeps its letters, digits,
/// hyphens and underscores; an id that starts with its chat is known by the rest.
pub proof fn law_names_keep_what_is_plain(s: Seq<char>, chat_id: Seq<char>)
    ensures
        s.len() > 0 ==> plain_name(s).len() == s.len() && forall|i: int|
            0 <= i < s.len() ==> {
                let c = #[trigger] s[i];
                let u = c as int;
                if 97 <= u <= 122 || 65 <= u <= 90 || 48 <= u <= 57 || c == '-' || c == '_' {
                    plain_name(s)[i] == c
                } else {
                    plain_name(s)[i] == '_'
                }
            },
        bare_id(chat_id + seq!['-'] + s, chat_id) == s,
        (chat_id.len() >= s.len() || s.take(chat_id.len() as int) != chat_id) ==> bare_id(
            s,
            chat_id,
        ) == s,
{
    reveal_strlit("-");
    assert("-"@ =~= seq!['-']);
    let id = chat_id + seq!['-'] + s;
    let rest = id.skip(chat_id.len() as int);
    assert(id.subrange(0, chat_id.len() as int) =~= chat_id);
    assert(rest =~= "-"@ + s);
    assert(rest.subrange(0, 1) =~= "-"@);
    assert(rest.skip(1) =~= s);
    if chat_id.len() <= s.len() {
        assert(s.subrange(0, chat_id.len() as int) =~= s.take(chat_id.len() as int));
    }
}

/// A transcript's file is named by its chat and its range, and is Markdown.
pub proof fn law_the_file_is_named_by_its_range(
    chat_id: Seq<char>,
    first: Seq<char>,
    last: Seq<char>,
)
    requires
        digits(first),
        digits(last),
    ensures
        file_name(chat_id, chat_id + "-"@ + first, chat_id + "-"@ + last) == plain_name(chat_id)
            + seq!['-'] + first + seq!['-'] + last + seq!['.', 'm', 'd'],
{
    lemma_numbered(first, chat_id);
    lemma_numbered(last, chat_id);
    reveal_strlit("-");
    reveal_strlit(".md");
    assert("-"@ =~= seq!['-']);
    assert(".md"@ =~= seq!['.', 'm', 'd']);
}

/// A notice is told by its type and by what its text is: whatever does not start
/// with a brace, but for white space, is something that a person wrote, and so is
/// an object without a key of such an event.
pub proof fn law_a_notice_is_an_object(message_type: Seq<char>, text: Seq<char>)
    ensures
        feed(message_type, text) ==> message_type == "type_0"@,
        text.len() > 0 && !white_space(text[0]) && text[0] != '{' ==> !feed(message_type, text),
        text.len() == 0 ==> !feed(message_type, text),
        message_type == "type_0"@ && text.len() > 0 && text[0] == '{' ==> (feed(message_type, text)
            <==> match json_members(text) {
            Some(members) => exists|i: int|
                0 <= i < members.len() && seq![
                    "feedType"@,
                    "inviter"@,
                    "member"@,
                    "leaver"@,
                    "members"@,
                ].contains((#[trigger] members[i]).key),
            None => false,
        }),
{
    if message_type == "type_0"@ && text.len() > 0 && text[0] == '{' {
        if let Some(members) = json_members(text) {
            let keys = seq!["feedType"@, "inviter"@, "member"@, "leaver"@, "members"@];
            lemma_member_at(members, "feedType"@);
            lemma_member_at(members, "inviter"@);
            lemma_member_at(members, "member"@);
            lemma_member_at(members, "leaver"@);
            lemma_member_at(members, "members"@);
            assert(keys[0] == "feedType"@ && keys[1] == "inviter"@ && keys[2] == "member"@
                && keys[3] == "leaver"@ && keys[4] == "members"@);
        }
    }
}

/// The messages of a transcript stand in order, each on a line of its own behind
/// those before it: the places of the lines of two of them are given.
pub proof fn law_messages_stand_in_order(
    report: TranscriptReport,
    file: Option<TranscriptFile>,
    chat_id: Seq<char>,
    messages: Seq<TranscriptMessage>,
    flags: Seq<bool>,
    out_dir: Seq<char>,
    i: int,
    j: int,
) -> (places: (int, int))
    requires
        exports(report, file, chat_id, messages, flags, out_dir),
        flags.len() == messages.len(),
        0 <= i < j < messages.len(),
        !flags[i],
        !flags[j],
    ensures
        file is Some,
        written_at(file->0.body@, message_line(messages[i]), places.0),
        written_at(file->0.body@, message_line(messages[j]), places.1),
        places.0 + message_line(messages[i]).len() < places.1,
{
    law_only_notices_are_left_out(flags);
    let kept = kept_places(flags);
    let k = choose|k: int| 0 <= k < kept.len() && kept[k] == i;
    let l = choose|l: int| 0 <= l < kept.len() && kept[l] == j;
    assert(k < l) by {
        if l < k {
            assert(kept[l] < kept[k]);
        }
    }
    lemma_message_lines(messages, flags, k);
    lemma_message_lines(messages, flags, l);
    let head = head_lines(
        last_name(messages, chat_id),
        chat_id,
        kept.len(),
        (messages.len() - kept.len()) as nat,
        messages[kept[0]].message_id@,
        messages[kept.last()].message_id@,
    );
    let lines = head + message_lines(messages, flags);
    let a = head.len() + 2 * k;
    let b = head.len() + 2 * l;
    assert(lines[a] == message_line(messages[i]));
    assert(lines[b] == message_line(messages[j]));
    law_join_holds_every_part(lines, "\n"@);
    reveal_strlit("\n");
    lemma_starts_ascend(lines, 1, a, b);
    (part_start(lines, 1, a), part_start(lines, 1, b))
}

proof fn lemma_starts_ascend(parts: Seq<Seq<char>>, sep_len: nat, a: int, b: int)
    requires
        0 <= a < b,
    ensures
        part_start(parts, sep_len, a) + parts[a].len() + sep_len <= part_start(parts, sep_len, b),
    decreases b,
{
    if a < b - 1 {
        lemma_starts_ascend(parts, sep_len, a, b - 1);
    }
}

} // verus!
