//! The wire codec.
//!
//! A frame is three text lines, each terminated by a newline: the tag of the
//! message kind, the sender, and the payload with every literal newline
//! escaped as the two characters backslash-n.  `Message::to_string` encodes,
//! `Message::from` decodes; both are specified against the mathematical model
//! `encode_spec` / `decode_spec` over character sequences.

use vstd::prelude::*;

verus! {

/// The six kinds a message on the wire can have.  No other tag is valid.
#[derive(Clone, Copy, PartialEq, Eq, Structural, Debug)]
pub enum MsgType {
    /// Chat text.
    MSG,
    /// Error: the sender is terminating the session.
    ERR,
    /// Login request; the payload carries the password.
    LIN,
    /// Logout: the sender is leaving.
    LOU,
    /// Generic acknowledgment, also the answer to a liveness probe.
    ACC,
    /// Liveness probe: the sender asks whether this side is still alive.
    CHK,
}

/// One protocol message: a kind, the sending identity, and the payload.
///
/// `content` may contain embedded newlines; the codec escapes them.  `from`
/// must not contain a newline — that is the sender's obligation, stated in
/// the round-trip law, not checked by `to_string`.
#[derive(Debug)]
pub struct Message {
    pub msg: MsgType,
    pub from: String,
    pub content: String,
}

/// The mathematical model of a `Message`: the kind and the two fields as
/// character sequences.
pub struct MessageModel {
    pub msg: MsgType,
    pub from: Seq<char>,
    pub content: Seq<char>,
}

impl View for Message {
    type V = MessageModel;

    open spec fn view(&self) -> MessageModel {
        MessageModel { msg: self.msg, from: self.from@, content: self.content@ }
    }
}

/// The three-character tag that names a kind on the wire.
pub open spec fn tag_chars(t: MsgType) -> Seq<char> {
    match t {
        MsgType::MSG => seq!['M', 'S', 'G'],
        MsgType::ERR => seq!['E', 'R', 'R'],
        MsgType::LIN => seq!['L', 'I', 'N'],
        MsgType::LOU => seq!['L', 'O', 'U'],
        MsgType::ACC => seq!['A', 'C', 'C'],
        MsgType::CHK => seq!['C', 'H', 'K'],
    }
}

/// The kind whose tag is exactly `line`, if any (case-sensitive, exact).
pub open spec fn tag_kind(line: Seq<char>) -> Option<MsgType> {
    if line == tag_chars(MsgType::MSG) {
        Some(MsgType::MSG)
    } else if line == tag_chars(MsgType::ERR) {
        Some(MsgType::ERR)
    } else if line == tag_chars(MsgType::LIN) {
        Some(MsgType::LIN)
    } else if line == tag_chars(MsgType::LOU) {
        Some(MsgType::LOU)
    } else if line == tag_chars(MsgType::ACC) {
        Some(MsgType::ACC)
    } else if line == tag_chars(MsgType::CHK) {
        Some(MsgType::CHK)
    } else {
        None
    }
}

/// Payload escaping: every literal newline becomes backslash-n; nothing else
/// changes.
pub open spec fn escape(s: Seq<char>) -> Seq<char>
    decreases s.len(),
{
    if s.len() == 0 {
        Seq::empty()
    } else if s[0] == '\n' {
        seq!['\\', 'n'] + escape(s.skip(1))
    } else {
        seq![s[0]] + escape(s.skip(1))
    }
}

/// Payload unescaping: a raw left-to-right replacement of each backslash-n
/// pair by a literal newline.  It is the inverse of `escape` only for
/// payloads that contain no literal backslash-n pair of their own; a pair
/// the codec never produced is still replaced (an accepted lossy edge case).
pub open spec fn unescape(s: Seq<char>) -> Seq<char>
    decreases s.len(),
{
    if s.len() == 0 {
        Seq::empty()
    } else if s.len() >= 2 && s[0] == '\\' && s[1] == 'n' {
        seq!['\n'] + unescape(s.skip(2))
    } else {
        seq![s[0]] + unescape(s.skip(1))
    }
}

/// What encoding a message produces: tag line, sender line, escaped payload
/// line, each with a trailing newline.
pub open spec fn encode_spec(m: MessageModel) -> Seq<char> {
    tag_chars(m.msg) + seq!['\n'] + m.from + seq!['\n'] + escape(m.content) + seq!['\n']
}

/// Splitting on newlines.  Every input yields at least one piece; a newline
/// at the very end yields a final empty piece, which `lines_of` drops.
pub open spec fn split_nl(s: Seq<char>) -> Seq<Seq<char>>
    decreases s.len(),
{
    if s.len() == 0 {
        seq![Seq::<char>::empty()]
    } else if s[0] == '\n' {
        seq![Seq::<char>::empty()] + split_nl(s.skip(1))
    } else {
        let rest = split_nl(s.skip(1));
        seq![seq![s[0]] + rest[0]] + rest.skip(1)
    }
}

/// The lines of a buffer: the pieces between newlines, without the empty
/// piece a trailing newline would otherwise produce.
pub open spec fn lines_of(s: Seq<char>) -> Seq<Seq<char>> {
    let p = split_nl(s);
    if p.last().len() == 0 {
        p.drop_last()
    } else {
        p
    }
}

/// What decoding a buffer yields: the first three lines as tag, sender and
/// escaped payload.  Fewer than three lines, or a tag outside the six known
/// values, is a decode failure.
pub open spec fn decode_spec(s: Seq<char>) -> Option<MessageModel> {
    let ls = lines_of(s);
    if ls.len() < 3 {
        None
    } else {
        match tag_kind(ls[0]) {
            Some(k) => Some(MessageModel { msg: k, from: ls[1], content: unescape(ls[2]) }),
            None => None,
        }
    }
}

/// Relies on `String::push`: appends exactly the given character at the end.
#[verifier::external_body]
fn push_char(s: &mut String, c: char)
    ensures
        final(s)@ == old(s)@.push(c),
{
    s.push(c);
}

/// The characters of a string slice, as a vector.
fn chars_of(s: &str) -> (v: Vec<char>)
    ensures
        v@ == s@,
{
    let n = s.unicode_len();
    let mut v: Vec<char> = Vec::new();
    let mut i: usize = 0;
    while i < n
        invariant
            i <= n,
            n == s@.len(),
            v@ == s@.subrange(0, i as int),
        decreases n - i,
    {
        v.push(s.get_char(i));
        proof {
            assert(s@.subrange(0, i + 1 as int) =~= s@.subrange(0, i as int).push(s@[i as int]));
        }
        i += 1;
    }
    proof {
        assert(v@ =~= s@);
    }
    v
}

/// A string holding exactly the given characters.
fn string_of(v: &Vec<char>) -> (s: String)
    ensures
        s@ == v@,
{
    let n = v.len();
    let mut s = String::new();
    let mut i: usize = 0;
    while i < n
        invariant
            i <= n,
            n == v@.len(),
            s@ == v@.subrange(0, i as int),
        decreases n - i,
    {
        push_char(&mut s, v[i]);
        proof {
            assert(v@.subrange(0, i + 1 as int) =~= v@.subrange(0, i as int).push(v@[i as int]));
        }
        i += 1;
    }
    proof {
        assert(s@ =~= v@);
    }
    s
}

/// Escapes a payload for the wire: each newline becomes backslash-n.
fn escape_content(s: &str) -> (r: String)
    ensures
        r@ == escape(s@),
{
    let n = s.unicode_len();
    let mut out = String::new();
    let mut i: usize = 0;
    proof {
        assert(s@.skip(0) =~= s@);
        assert(out@ + escape(s@) =~= escape(s@));
    }
    while i < n
        invariant
            i <= n,
            n == s@.len(),
            out@ + escape(s@.skip(i as int)) == escape(s@),
        decreases n - i,
    {
        let c = s.get_char(i);
        proof {
            assert(s@.skip(i as int)[0] == s@[i as int]);
            assert(s@.skip(i as int).skip(1) =~= s@.skip(i + 1 as int));
        }
        if c == '\n' {
            push_char(&mut out, '\\');
            push_char(&mut out, 'n');
            proof {
                assert(out@ + escape(s@.skip(i + 1 as int)) =~= escape(s@));
            }
        } else {
            push_char(&mut out, c);
            proof {
                assert(out@ + escape(s@.skip(i + 1 as int)) =~= escape(s@));
            }
        }
        i += 1;
    }
    proof {
        assert(s@.skip(n as int) =~= Seq::<char>::empty());
        assert(out@ =~= escape(s@));
    }
    out
}

/// Unescapes one payload line: each backslash-n pair becomes a newline.
fn unescape_line(v: &Vec<char>) -> (r: Vec<char>)
    ensures
        r@ == unescape(v@),
{
    let n = v.len();
    let mut out: Vec<char> = Vec::new();
    let mut i: usize = 0;
    proof {
        assert(v@.skip(0) =~= v@);
        assert(out@ + unescape(v@) =~= unescape(v@));
    }
    while i < n
        invariant
            i <= n,
            n == v@.len(),
            out@ + unescape(v@.skip(i as int)) == unescape(v@),
        decreases n - i,
    {
        proof {
            assert(v@.skip(i as int)[0] == v@[i as int]);
        }
        if i + 1 < n && v[i] == '\\' && v[i + 1] == 'n' {
            proof {
                assert(v@.skip(i as int)[1] == v@[i + 1 as int]);
                assert(v@.skip(i as int).skip(2) =~= v@.skip(i + 2 as int));
            }
            out.push('\n');
            proof {
                assert(out@ + unescape(v@.skip(i + 2 as int)) =~= unescape(v@));
            }
            i += 2;
        } else {
            proof {
                assert(v@.skip(i as int).skip(1) =~= v@.skip(i + 1 as int));
            }
            out.push(v[i]);
            proof {
                assert(out@ + unescape(v@.skip(i + 1 as int)) =~= unescape(v@));
            }
            i += 1;
        }
    }
    proof {
        assert(v@.skip(n as int) =~= Seq::<char>::empty());
        assert(out@ =~= unescape(v@));
    }
    out
}

/// Whether a newline occurs anywhere in `s`.
pub open spec fn contains_nl(s: Seq<char>) -> bool {
    exists|i: int| 0 <= i < s.len() && s[i] == '\n'
}

/// A buffer without newlines splits into itself alone.
proof fn lemma_split_no_nl(s: Seq<char>)
    requires
        !contains_nl(s),
    ensures
        split_nl(s) == seq![s],
    decreases s.len(),
{
    if s.len() == 0 {
        assert(split_nl(s) =~~= seq![s]);
    } else {
        assert(s[0] != '\n');
        assert(!contains_nl(s.skip(1))) by {
            assert(forall|i: int|
                0 <= i < s.skip(1).len() ==> s.skip(1)[i] == s[i + 1] && s[i + 1] != '\n');
        }
        lemma_split_no_nl(s.skip(1));
        assert(seq![s[0]] + s.skip(1) =~= s);
        assert(split_nl(s) =~~= seq![s]);
    }
}

/// Splitting a buffer that starts with a newline-free piece, a newline and a
/// remainder yields that piece followed by the split of the remainder.
proof fn lemma_split_prefix(a: Seq<char>, b: Seq<char>)
    requires
        !contains_nl(a),
    ensures
        split_nl(a + seq!['\n'] + b) == seq![a] + split_nl(b),
    decreases a.len(),
{
    let s = a + seq!['\n'] + b;
    if a.len() == 0 {
        assert(s[0] == '\n');
        assert(s.skip(1) =~= b);
        assert(split_nl(s) =~~= seq![a] + split_nl(b));
    } else {
        assert(s[0] == a[0]);
        assert(a[0] != '\n');
        assert(!contains_nl(a.skip(1))) by {
            assert(forall|i: int|
                0 <= i < a.skip(1).len() ==> a.skip(1)[i] == a[i + 1] && a[i + 1] != '\n');
        }
        lemma_split_prefix(a.skip(1), b);
        assert(s.skip(1) =~= a.skip(1) + seq!['\n'] + b);
        let rest = split_nl(s.skip(1));
        assert(rest == seq![a.skip(1)] + split_nl(b));
        assert(rest[0] == a.skip(1));
        assert(rest.skip(1) =~= split_nl(b));
        assert(seq![s[0]] + rest[0] =~= a);
        assert(split_nl(s) =~~= seq![a] + split_nl(b));
    }
}

/// Splits a buffer into its lines, as character vectors.
fn split_lines(v: &Vec<char>) -> (r: Vec<Vec<char>>)
    ensures
        r.deep_view() == lines_of(v@),
{
    let n = v.len();
    let mut parts: Vec<Vec<char>> = Vec::new();
    let mut cur: Vec<char> = Vec::new();
    let mut i: usize = 0;
    proof {
        assert(cur@ + v@.skip(0) =~= v@);
        assert(parts.deep_view() + split_nl(v@) =~= split_nl(v@));
    }
    while i < n
        invariant
            i <= n,
            n == v@.len(),
            !contains_nl(cur@),
            split_nl(v@) == parts.deep_view() + split_nl(cur@ + v@.skip(i as int)),
        decreases n - i,
    {
        let c = v[i];
        proof {
            assert(v@.skip(i as int)[0] == v@[i as int]);
        }
        if c == '\n' {
            proof {
                assert(cur@ + v@.skip(i as int) =~= cur@ + seq!['\n'] + v@.skip(i + 1 as int));
                lemma_split_prefix(cur@, v@.skip(i + 1 as int));
            }
            let ghost old_parts = parts.deep_view();
            let ghost old_cur = cur@;
            parts.push(cur);
            cur = Vec::new();
            proof {
                assert(parts.deep_view() =~~= old_parts.push(old_cur));
                assert(old_parts.push(old_cur) =~= old_parts + seq![old_cur]);
                assert(cur@ + v@.skip(i + 1 as int) =~= v@.skip(i + 1 as int));
                assert(split_nl(v@) =~= parts.deep_view() + split_nl(cur@ + v@.skip(i + 1 as int)));
            }
        } else {
            let ghost old_cur = cur@;
            cur.push(c);
            proof {
                assert(cur@ + v@.skip(i + 1 as int) =~= old_cur + v@.skip(i as int));
                assert(forall|j: int|
                    0 <= j < cur@.len() ==> cur@[j] == (if j < old_cur.len() {
                        old_cur[j]
                    } else {
                        v@[i as int]
                    }));
                assert(!contains_nl(cur@));
            }
        }
        i += 1;
    }
    proof {
        assert(cur@ + v@.skip(n as int) =~= cur@);
        lemma_split_no_nl(cur@);
        assert(split_nl(v@) == parts.deep_view() + seq![cur@]);
        assert(split_nl(v@).last() == cur@);
    }
    if cur.len() > 0 {
        let ghost old_parts = parts.deep_view();
        parts.push(cur);
        proof {
            assert(parts.deep_view() =~~= old_parts.push(split_nl(v@).last()));
            assert(parts.deep_view() =~~= split_nl(v@));
        }
    } else {
        proof {
            assert(parts.deep_view() =~~= split_nl(v@).drop_last());
        }
    }
    parts
}

/// Matches one line against the six known tags.
fn parse_tag(line: &Vec<char>) -> (r: Option<MsgType>)
    ensures
        r == tag_kind(line@),
{
    if line.len() != 3 {
        proof {
            assert(forall|t: MsgType| tag_chars(t).len() == 3);
        }
        return None;
    }
    let a = line[0];
    let b = line[1];
    let c = line[2];
    proof {
        assert(line@ =~= seq![a, b, c]);
    }
    let r = if a == 'M' && b == 'S' && c == 'G' {
        Some(MsgType::MSG)
    } else if a == 'E' && b == 'R' && c == 'R' {
        Some(MsgType::ERR)
    } else if a == 'L' && b == 'I' && c == 'N' {
        Some(MsgType::LIN)
    } else if a == 'L' && b == 'O' && c == 'U' {
        Some(MsgType::LOU)
    } else if a == 'A' && b == 'C' && c == 'C' {
        Some(MsgType::ACC)
    } else if a == 'C' && b == 'H' && c == 'K' {
        Some(MsgType::CHK)
    } else {
        None
    };
    proof {
        assert(forall|t: MsgType| line@ == tag_chars(t) ==> a == tag_chars(t)[0] && b == tag_chars(
            t,
        )[1] && c == tag_chars(t)[2]);
    }
    r
}

/// The tag of a kind, as a string slice.
fn tag_str(t: MsgType) -> (r: &'static str)
    ensures
        r@ == tag_chars(t),
{
    proof {
        reveal_strlit("MSG");
        reveal_strlit("ERR");
        reveal_strlit("LIN");
        reveal_strlit("LOU");
        reveal_strlit("ACC");
        reveal_strlit("CHK");
    }
    let r = match t {
        MsgType::MSG => "MSG",
        MsgType::ERR => "ERR",
        MsgType::LIN => "LIN",
        MsgType::LOU => "LOU",
        MsgType::ACC => "ACC",
        MsgType::CHK => "CHK",
    };
    proof {
        assert(r@ =~= tag_chars(t));
    }
    r
}

impl Message {
    /// Builds a message from its parts, copying both strings.
    pub fn new(msg: MsgType, from: &str, content: &str) -> (m: Message)
        ensures
            m@.msg == msg,
            m@.from == from@,
            m@.content == content@,
    {
        Message { msg, from: String::from_str(from), content: String::from_str(content) }
    }

    /// Decodes one frame.  Succeeds exactly when the buffer has at least
    /// three lines and the first is one of the six known tags; the sender is
    /// the second line verbatim, and the payload is the third line with each
    /// backslash-n pair turned back into a newline.  Lines past the third,
    /// trailing blank lines and garbled buffers are tolerated: any shortfall
    /// is a decode failure, never a fault.
    pub fn from(msg: &str) -> (r: Option<Message>)
        ensures
            match decode_spec(msg@) {
                Some(v) => r matches Some(m) && m@ == v,
                None => r is None,
            },
    {
        let chars = chars_of(msg);
        let lines = split_lines(&chars);
        if lines.len() < 3 {
            return None;
        }
        proof {
            assert(lines.deep_view()[0] == lines@[0].deep_view());
            assert(lines@[0].deep_view() =~= lines@[0]@);
            assert(lines.deep_view()[1] == lines@[1].deep_view());
            assert(lines@[1].deep_view() =~= lines@[1]@);
            assert(lines.deep_view()[2] == lines@[2].deep_view());
            assert(lines@[2].deep_view() =~= lines@[2]@);
        }
        let kind = match parse_tag(&lines[0]) {
            Some(k) => k,
            None => {
                return None;
            },
        };
        let from = string_of(&lines[1]);
        let content_chars = unescape_line(&lines[2]);
        let content = string_of(&content_chars);
        Some(Message { msg: kind, from, content })
    }

    /// Encodes this message as one frame: the tag, the sender and the
    /// escaped payload, each line terminated by a newline.
    pub fn to_string(&self) -> (r: String)
        ensures
            r@ == encode_spec(self@),
    {
        let mut out = String::new();
        out.append(tag_str(self.msg));
        out.append("\n");
        out.append(self.from.as_str());
        out.append("\n");
        let esc = escape_content(self.content.as_str());
        out.append(esc.as_str());
        out.append("\n");
        proof {
            reveal_strlit("\n");
            assert("\n"@ =~= seq!['\n']);
            assert(out@ =~= encode_spec(self@));
        }
        out
    }
}

/// Whether a literal backslash-n pair occurs anywhere in `s`.  `escape`
/// never produces one except for a newline, so payloads holding such a pair
/// of their own are the codec's accepted lossy edge case.
pub open spec fn has_escape_pair(s: Seq<char>) -> bool {
    exists|i: int| 0 <= i && i + 1 < s.len() && #[trigger] s[i] == '\\' && s[i + 1] == 'n'
}

/// Escaped text contains no newline.
proof fn lemma_escape_no_nl(s: Seq<char>)
    ensures
        !contains_nl(escape(s)),
    decreases s.len(),
{
    if s.len() > 0 {
        lemma_escape_no_nl(s.skip(1));
        let e = escape(s);
        let head: Seq<char> = if s[0] == '\n' {
            seq!['\\', 'n']
        } else {
            seq![s[0]]
        };
        assert(e == head + escape(s.skip(1)));
        assert(forall|i: int| 0 <= i < head.len() ==> head[i] != '\n');
        assert(forall|i: int|
            0 <= i < e.len() ==> e[i] == (if i < head.len() {
                head[i]
            } else {
                escape(s.skip(1))[i - head.len()]
            }));
    }
}

/// A pair in the tail of `s` is a pair in `s`.
proof fn lemma_pair_in_tail(s: Seq<char>, k: int)
    requires
        0 <= k <= s.len(),
        has_escape_pair(s.skip(k)),
    ensures
        has_escape_pair(s),
{
    let i = choose|i: int|
        0 <= i && i + 1 < s.skip(k).len() && #[trigger] s.skip(k)[i] == '\\' && s.skip(k)[i + 1]
            == 'n';
    assert(s[i + k] == '\\' && s[i + k + 1] == 'n');
}

/// Unescaping undoes escaping, for payloads without a literal pair.
proof fn lemma_unescape_escape(s: Seq<char>)
    requires
        !has_escape_pair(s),
    ensures
        unescape(escape(s)) == s,
    decreases s.len(),
{
    if s.len() == 0 {
    } else {
        let tail = s.skip(1);
        assert(!has_escape_pair(tail)) by {
            if has_escape_pair(tail) {
                lemma_pair_in_tail(s, 1);
            }
        }
        lemma_unescape_escape(tail);
        let e = escape(s);
        if s[0] == '\n' {
            assert(e == seq!['\\', 'n'] + escape(tail));
            assert(e.len() >= 2 && e[0] == '\\' && e[1] == 'n');
            assert(e.skip(2) =~= escape(tail));
            assert(unescape(e) == seq!['\n'] + unescape(escape(tail)));
            assert(unescape(e) =~= s);
        } else {
            assert(e == seq![s[0]] + escape(tail));
            assert(e[0] == s[0]);
            // The head cannot begin a backslash-n pair: that would place a
            // literal pair at the start of `s`.
            if e.len() >= 2 && e[0] == '\\' && e[1] == 'n' {
                assert(escape(tail)[0] == 'n');
                assert(tail.len() > 0);
                assert(tail[0] != '\n' ==> escape(tail)[0] == tail[0]);
                assert(tail[0] == '\n' ==> escape(tail)[0] == '\\');
                assert(s[0] == '\\' && s[1] == 'n');
                assert(has_escape_pair(s));
                assert(false);
            }
            assert(e.skip(1) =~= escape(tail));
            assert(unescape(e) == seq![s[0]] + unescape(escape(tail)));
            assert(unescape(e) =~= s);
        }
    }
}

/// Law: the codec loses nothing.  Decoding an encoded message returns the
/// message unchanged, for every message whose sender contains no newline and
/// whose payload contains no literal backslash-n pair; the payload itself
/// may contain any number of embedded newlines.
pub proof fn lemma_codec_round_trip(m: MessageModel)
    requires
        !contains_nl(m.from),
        !has_escape_pair(m.content),
    ensures
        decode_spec(encode_spec(m)) == Some(m),
{
    let tag = tag_chars(m.msg);
    let e = escape(m.content);
    let nl = seq!['\n'];
    let enc = encode_spec(m);
    lemma_escape_no_nl(m.content);
    assert(!contains_nl(tag)) by {
        assert(forall|t: MsgType| #![auto] tag_chars(t)[0] != '\n' && tag_chars(t)[1] != '\n'
            && tag_chars(t)[2] != '\n');
    }
    assert(enc =~= tag + nl + (m.from + nl + (e + nl)));
    lemma_split_prefix(tag, m.from + nl + (e + nl));
    assert(m.from + nl + (e + nl) =~= m.from + nl + (e + nl));
    lemma_split_prefix(m.from, e + nl);
    lemma_split_prefix(e, Seq::<char>::empty());
    assert(split_nl(Seq::<char>::empty()) == seq![Seq::<char>::empty()]);
    let p = split_nl(enc);
    assert(p =~= seq![tag, m.from, e, Seq::<char>::empty()]);
    assert(p.last().len() == 0);
    let ls = lines_of(enc);
    assert(ls =~= seq![tag, m.from, e]);
    assert(tag_kind(ls[0]) == Some(m.msg)) by {
        lemma_tags_distinct();
    }
    lemma_unescape_escape(m.content);
    assert(decode_spec(enc) == Some(MessageModel { msg: m.msg, from: m.from, content: m.content }));
}

/// The six tags name six different character sequences, so each tag is
/// recognized as exactly its own kind.
proof fn lemma_tags_distinct()
    ensures
        forall|t: MsgType| #[trigger] tag_kind(tag_chars(t)) == Some(t),
{
    assert forall|t: MsgType| #[trigger] tag_kind(tag_chars(t)) == Some(t) by {
        assert(forall|a: MsgType, b: MsgType|
            tag_chars(a) == tag_chars(b) ==> #[trigger] tag_chars(a)[0] == #[trigger] tag_chars(
                b,
            )[0] && tag_chars(a)[1] == tag_chars(b)[1] && tag_chars(a)[2] == tag_chars(b)[2]);
    }
}

/// Law: a buffer with fewer than three lines never decodes; it is reported
/// as no message, not as a fault.
pub proof fn lemma_decode_short_input(s: Seq<char>)
    requires
        lines_of(s).len() < 3,
    ensures
        decode_spec(s) is None,
{
}

/// Law: a well-formed buffer of three or more lines whose tag is outside
/// the six known values never decodes.
pub proof fn lemma_decode_unknown_tag(s: Seq<char>)
    requires
        lines_of(s).len() >= 3,
        forall|t: MsgType| lines_of(s)[0] != tag_chars(t),
    ensures
        decode_spec(s) is None,
{
    assert(lines_of(s)[0] != tag_chars(MsgType::MSG));
    assert(lines_of(s)[0] != tag_chars(MsgType::ERR));
    assert(lines_of(s)[0] != tag_chars(MsgType::LIN));
    assert(lines_of(s)[0] != tag_chars(MsgType::LOU));
    assert(lines_of(s)[0] != tag_chars(MsgType::ACC));
    assert(lines_of(s)[0] != tag_chars(MsgType::CHK));
}

} // verus!
