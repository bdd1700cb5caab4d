//! The wire protocol: request types, reply encoders, the line-based
//! recursive decoder and the recognition of command keywords.

use vstd::prelude::*;
use crate::text::{
    ascii_upper, chars_of, clamp_bytes, is_digit, is_digits, digits_value, strip_cr, lines_after, digit_char, digit_value, clamp_to_bytes, decimal, eq_upper, lines_of, parse_i64,
    parse_usize, push_all, push_decimal, push_signed_decimal, signed_decimal, split_lines,
    string_of, byte_len, text_to_i64, text_to_usize, utf8_len,
};

verus! {

/// The command of a request; `Unknown` when the first word is not a known one.
#[derive(Debug, Clone, Copy, PartialEq, Eq, Structural)]
pub enum Command {
    Get,
    SetKey,
    Ping,
    Echo,
    Info,
    Replconf,
    Unknown,
}

/// The type tag of one decoded element.
#[derive(Debug, Clone, Copy, PartialEq, Eq, Structural)]
pub enum ContentType {
    Error,
    Integer,
    String,
    BulkString,
    Array,
    Double,
    Null,
}

/// One decoded element: its text and its type tag.
#[derive(Debug, Clone)]
pub struct Content {
    pub content: String,
    pub content_type: ContentType,
}

/// A decoded request: the command, its operands in order, and the type of
/// the single element when the request was not sent as an array.
#[derive(Debug, Clone)]
pub struct RespRequest {
    pub command: Command,
    pub arguments: Vec<Content>,
    pub single_content_type: ContentType,
}

/// An element as text and tag.
pub type ElemModel = (Seq<char>, ContentType);

/// A request as command, elements and single-element type.
pub type RequestModel = (Command, Seq<ElemModel>, ContentType);

impl View for Content {
    type V = ElemModel;

    open spec fn view(&self) -> ElemModel {
        (self.content@, self.content_type)
    }
}

impl View for RespRequest {
    type V = RequestModel;

    open spec fn view(&self) -> RequestModel {
        (self.command, self.arguments@.map_values(|c: Content| c@), self.single_content_type)
    }
}

pub open spec fn empty_request() -> RequestModel {
    (Command::Unknown, Seq::empty(), ContentType::Null)
}

impl RespRequest {
    /// The request with no command and no elements.
    pub fn new() -> (r: RespRequest)
        ensures
            r@ == empty_request(),
    {
        let r = RespRequest {
            command: Command::Unknown,
            arguments: Vec::new(),
            single_content_type: ContentType::Null,
        };
        assert(r@.1 =~= Seq::<ElemModel>::empty());
        r
    }
}

pub open spec fn crlf() -> Seq<char> {
    seq!['\r', '\n']
}

/// `$<byte length>\r\n<text>\r\n`.
pub open spec fn bulk_spec(s: Seq<char>) -> Seq<char> {
    seq!['$'] + decimal(utf8_len(s)) + crlf() + s + crlf()
}

/// `<prefix><text>\r\n`.
pub open spec fn simple_spec(s: Seq<char>, prefix: char) -> Seq<char> {
    seq![prefix] + s + crlf()
}

/// Appends the bulk-string encoding of `s`.
pub fn push_bulk(out: &mut Vec<char>, s: &String)
    ensures
        final(out)@ == old(out)@ + bulk_spec(s@),
{
    let n = byte_len(s.as_str());
    let chars = chars_of(s.as_str());
    out.push('$');
    push_decimal(out, n as u64);
    out.push('\r');
    out.push('\n');
    push_all(out, chars.as_slice());
    out.push('\r');
    out.push('\n');
    assert(final(out)@ =~= old(out)@ + bulk_spec(s@));
}

/// Encodes a text as a bulk string.
pub fn to_bulk_string(content: String) -> (r: String)
    ensures
        r@ == bulk_spec(content@),
{
    let mut out: Vec<char> = Vec::new();
    push_bulk(&mut out, &content);
    assert(out@ =~= bulk_spec(content@));
    string_of(&out)
}

/// Encodes a text as a one-line reply after the given type prefix.
pub fn string_to_simple_resp(content: &str, prefix: char) -> (r: String)
    ensures
        r@ == simple_spec(content@, prefix),
{
    let mut out: Vec<char> = Vec::new();
    out.push(prefix);
    let chars = chars_of(content);
    push_all(&mut out, chars.as_slice());
    out.push('\r');
    out.push('\n');
    assert(out@ =~= simple_spec(content@, prefix));
    string_of(&out)
}

/// An array header `*<n>\r\n` followed by the bulk string of each item.
pub open spec fn array_spec(items: Seq<Seq<char>>) -> Seq<char> {
    seq!['*'] + decimal(items.len()) + crlf() + bulks_spec(items)
}

/// The bulk strings of the items, one after another.
pub open spec fn bulks_spec(items: Seq<Seq<char>>) -> Seq<char>
    decreases items.len(),
{
    if items.len() == 0 {
        Seq::empty()
    } else {
        bulks_spec(items.drop_last()) + bulk_spec(items.last())
    }
}

/// Encodes a sequence of texts as an array of bulk strings.
pub fn to_bulk_array(items: &Vec<String>) -> (r: String)
    ensures
        r@ == array_spec(items@.map_values(|s: String| s@)),
{
    let ghost view = items@.map_values(|s: String| s@);
    let mut out: Vec<char> = Vec::new();
    out.push('*');
    push_decimal(&mut out, items.len() as u64);
    out.push('\r');
    out.push('\n');
    let ghost head = out@;
    let mut i: usize = 0;
    while i < items.len()
        invariant
            i <= items@.len(),
            view == items@.map_values(|s: String| s@),
            out@ == head + bulks_spec(view.take(i as int)),
        decreases items@.len() - i,
    {
        push_bulk(&mut out, &items[i]);
        i = i + 1;
        assert(view.take(i as int).drop_last() =~= view.take(i as int - 1));
        assert(out@ =~= head + bulks_spec(view.take(i as int)));
    }
    assert(view.take(i as int) =~= view);
    assert(out@ =~= array_spec(view));
    string_of(&out)
}

// ---------------------------------------------------------------------
// Decoding
// ---------------------------------------------------------------------

/// The tags of the protocol that are known but have no decoding here.
pub open spec fn is_reserved_tag(c: char) -> bool {
    c == ',' || c == '(' || c == '!' || c == '=' || c == '%' || c == '~' || c == '>'
}

/// A length prefix: its value, or zero when it does not parse.
pub open spec fn length_or_zero(s: Seq<char>) -> nat {
    match text_to_usize(s) {
        Some(n) => n as nat,
        None => 0,
    }
}

/// Appends an element, and records its type when the request is not an array.
pub open spec fn with_elem(
    acc: RequestModel,
    text: Seq<char>,
    t: ContentType,
    simple: bool,
) -> RequestModel {
    (acc.0, acc.1.push((text, t)), if simple {
        t
    } else {
        acc.2
    })
}

pub open spec fn lines_view(lines: Seq<Vec<char>>) -> Seq<Seq<char>> {
    lines.map_values(|l: Vec<char>| l@)
}

/// Decodes the line `line`, whose following lines start at `pos`. The result
/// is the request with what the line added and the position of the first
/// line not consumed, or `None` where decoding must stop: a bulk string
/// with no payload line, or a tag with no decoding. An array of `n` consumes
/// `n + 1` further elements, or the lines that are left if fewer. `fuel`
/// bounds the nesting; more than the number of lines left always suffices.
pub open spec fn decode_line(
    lines: Seq<Seq<char>>,
    pos: int,
    line: Seq<char>,
    simple: bool,
    acc: RequestModel,
    fuel: nat,
) -> Option<(RequestModel, int)>
    decreases fuel, 1int, 0int,
{
    if fuel == 0 {
        None
    } else if line.len() == 0 {
        Some((acc, pos))
    } else {
        let tag = line[0];
        let rest = line.drop_first();
        if tag == '+' {
            Some((with_elem(acc, rest, ContentType::String, simple), pos))
        } else if tag == '-' {
            Some((with_elem(acc, rest, ContentType::Error, simple), pos))
        } else if tag == ':' {
            Some((with_elem(acc, rest, ContentType::Integer, simple), pos))
        } else if tag == '#' {
            Some((with_elem(acc, rest, ContentType::Double, simple), pos))
        } else if tag == '_' {
            Some(
                (
                    if simple {
                        (acc.0, acc.1, ContentType::Null)
                    } else {
                        acc
                    },
                    pos,
                ),
            )
        } else if tag == '$' {
            if 0 <= pos < lines.len() {
                let text = clamp_bytes(lines[pos], length_or_zero(rest) as int);
                Some((with_elem(acc, text, ContentType::BulkString, simple), pos + 1))
            } else {
                None
            }
        } else if tag == '*' {
            decode_items(lines, pos, length_or_zero(rest) + 1, simple, acc, fuel)
        } else if is_reserved_tag(tag) {
            None
        } else {
            Some((acc, pos))
        }
    }
}

/// Decodes up to `k` further elements, one line each to start with.
pub open spec fn decode_items(
    lines: Seq<Seq<char>>,
    pos: int,
    k: nat,
    simple: bool,
    acc: RequestModel,
    fuel: nat,
) -> Option<(RequestModel, int)>
    decreases fuel, 0int, k,
{
    if k == 0 || pos < 0 || pos >= lines.len() {
        Some((acc, pos))
    } else if fuel == 0 {
        None
    } else {
        match decode_line(lines, pos + 1, lines[pos], simple, acc, (fuel - 1) as nat) {
            Some((a, p)) => decode_items(lines, p, (k - 1) as nat, simple, a, fuel),
            None => None,
        }
    }
}

fn push_element(acc: &mut RespRequest, text: Vec<char>, t: ContentType, simple: bool)
    ensures
        final(acc)@ == with_elem(old(acc)@, text@, t, simple),
{
    let ghost before = acc@;
    acc.arguments.push(Content { content: string_of(&text), content_type: t });
    if simple {
        acc.single_content_type = t;
    }
    assert(acc@.1 =~= before.1.push((text@, t)));
}

fn length_prefix(rest: &[char]) -> (r: usize)
    ensures
        r as nat == length_or_zero(rest@),
{
    let mut v: Vec<char> = Vec::new();
    push_all(&mut v, rest);
    assert(v@ =~= rest@);
    match parse_usize(string_of(&v).as_str()) {
        Some(n) => n,
        None => 0,
    }
}

fn decode_line_exec(
    lines: &Vec<Vec<char>>,
    pos: usize,
    line: &Vec<char>,
    simple: bool,
    acc: &mut RespRequest,
    Ghost(fuel): Ghost<nat>,
) -> (r: Option<usize>)
    requires
        pos <= lines@.len(),
        fuel >= lines@.len() - pos + 1,
    ensures
        match decode_line(lines_view(lines@), pos as int, line@, simple, old(acc)@, fuel) {
            Some((a, p)) => r is Some && r->0 as int == p && final(acc)@ == a && pos <= p <= lines@.len(),
            None => r is None,
        },
    decreases fuel,
{
    let ghost lv = lines_view(lines@);
    if line.len() == 0 {
        return Some(pos);
    }
    let tag = line[0];
    let rest = line.as_slice().split_at(1).1;
    assert(rest@ =~= line@.drop_first());
    if tag == '+' || tag == '-' || tag == ':' || tag == '#' {
        let t = if tag == '+' {
            ContentType::String
        } else if tag == '-' {
            ContentType::Error
        } else if tag == ':' {
            ContentType::Integer
        } else {
            ContentType::Double
        };
        let mut text: Vec<char> = Vec::new();
        push_all(&mut text, rest);
        assert(text@ =~= rest@);
        push_element(acc, text, t, simple);
        Some(pos)
    } else if tag == '_' {
        if simple {
            acc.single_content_type = ContentType::Null;
        }
        Some(pos)
    } else if tag == '$' {
        if pos < lines.len() {
            let n = length_prefix(rest);
            let text = clamp_to_bytes(lines[pos].as_slice(), n);
            push_element(acc, text, ContentType::BulkString, simple);
            Some(pos + 1)
        } else {
            None
        }
    } else if tag == '*' {
        let count = length_prefix(rest);
        let ghost target = decode_items(lv, pos as int, count as nat + 1, simple, old(acc)@, fuel);
        let mut left: u128 = count as u128 + 1;
        let mut p: usize = pos;
        while left > 0 && p < lines.len()
            invariant
                pos <= p <= lines@.len(),
                fuel >= lines@.len() - pos + 1,
                lv == lines_view(lines@),
                decode_items(lv, p as int, left as nat, simple, acc@, fuel) == target,
                target == decode_line(lv, pos as int, line@, simple, old(acc)@, fuel),
            decreases left,
        {
            assert(lv[p as int] == lines@[p as int]@);
            let ghost acc_before = acc@;
            let ghost step = decode_line(lv, p + 1, lv[p as int], simple, acc_before, (fuel - 1) as nat);
            assert(decode_items(lv, p as int, left as nat, simple, acc_before, fuel) == match step {
                Some((a, q)) => decode_items(lv, q, (left - 1) as nat, simple, a, fuel),
                None => None,
            });
            match decode_line_exec(lines, p + 1, &lines[p], simple, acc, Ghost((fuel - 1) as nat)) {
                Some(q) => {
                    p = q;
                },
                None => {
                    return None;
                },
            }
            left = left - 1;
        }
        Some(p)
    } else if tag == ',' || tag == '(' || tag == '!' || tag == '=' || tag == '%' || tag == '~'
        || tag == '>' {
        None
    } else {
        Some(pos)
    }
}

/// Decodes `current_line`, whose following lines start at `pos`, into
/// `resp_request`; gives back the request and the position of the first line
/// not consumed, or `None` where decoding must stop.
pub fn parse_by_iter(
    lines: &Vec<Vec<char>>,
    pos: usize,
    current_line: &Vec<char>,
    is_simple: bool,
    resp_request: RespRequest,
) -> (r: Option<(RespRequest, usize)>)
    requires
        pos <= lines@.len(),
    ensures
        match decode_line(
            lines_view(lines@),
            pos as int,
            current_line@,
            is_simple,
            resp_request@,
            (lines@.len() - pos + 1) as nat,
        ) {
            Some((a, p)) => match r {
                Some((q, pp)) => q@ == a && pp == p,
                None => false,
            },
            None => r is None,
        },
{
    let mut acc = resp_request;
    let ghost spec_r = decode_line(
        lines_view(lines@),
        pos as int,
        current_line@,
        is_simple,
        resp_request@,
        (lines@.len() - pos + 1) as nat,
    );
    let r = decode_line_exec(
        lines,
        pos,
        current_line,
        is_simple,
        &mut acc,
        Ghost((lines@.len() - pos + 1) as nat),
    );
    assert(match spec_r {
        Some((a, q)) => r is Some && r->0 as int == q && acc@ == a,
        None => r is None,
    });
    match r {
        Some(p) => {
            assert(match spec_r {
                Some((a, q)) => a == acc@ && q == p,
                None => false,
            });
            Some((acc, p))
        },
        None => None,
    }
}

/// Whether a request is sent as an array: its first line starts with `*`.
pub open spec fn is_array_line(line: Seq<char>) -> bool {
    line.len() > 0 && line[0] == '*'
}

/// The elements of a read buffer, before any command is recognised. A
/// buffer with no line, or on which decoding stops, gives the empty request.
pub open spec fn decode_spec(s: Seq<char>) -> RequestModel {
    let lines = lines_of(s);
    if lines.len() == 0 {
        empty_request()
    } else {
        match decode_line(
            lines,
            1,
            lines[0],
            !is_array_line(lines[0]),
            empty_request(),
            lines.len(),
        ) {
            Some((r, _)) => r,
            None => empty_request(),
        }
    }
}

/// Decodes the elements of a read buffer, without recognising a command.
pub fn decode(input: &str) -> (r: RespRequest)
    ensures
        r@ == decode_spec(input@),
{
    let chars = chars_of(input);
    let lines = split_lines(chars.as_slice());
    assert(lines_view(lines@) =~= lines_of(input@));
    if lines.len() == 0 {
        return RespRequest::new();
    }
    let first = &lines[0];
    assert(lines_view(lines@)[0] == first@);
    let simple = !(first.len() > 0 && first[0] == '*');
    assert(simple == !is_array_line(lines_of(input@)[0]));
    match parse_by_iter(&lines, 1, first, simple, RespRequest::new()) {
        Some((r, _)) => r,
        None => RespRequest::new(),
    }
}

pub open spec fn echo_word() -> Seq<char> {
    seq!['E', 'C', 'H', 'O']
}

pub open spec fn get_word() -> Seq<char> {
    seq!['G', 'E', 'T']
}

pub open spec fn set_word() -> Seq<char> {
    seq!['S', 'E', 'T']
}

pub open spec fn ping_word() -> Seq<char> {
    seq!['P', 'I', 'N', 'G']
}

pub open spec fn info_word() -> Seq<char> {
    seq!['I', 'N', 'F', 'O']
}

pub open spec fn replconf_word() -> Seq<char> {
    seq!['R', 'E', 'P', 'L', 'C', 'O', 'N', 'F']
}

pub open spec fn px_word() -> Seq<char> {
    seq!['P', 'X']
}

/// The expiry operand meaning "never expires".
pub open spec fn max_value_word() -> Seq<char> {
    seq!['M', 'A', 'X', '_', 'V', 'A', 'L', 'U', 'E']
}

/// The command that an upper-cased word names.
pub open spec fn keyword(w: Seq<char>) -> Command {
    if w == echo_word() {
        Command::Echo
    } else if w == get_word() {
        Command::Get
    } else if w == set_word() {
        Command::SetKey
    } else if w == ping_word() {
        Command::Ping
    } else if w == info_word() {
        Command::Info
    } else if w == replconf_word() {
        Command::Replconf
    } else {
        Command::Unknown
    }
}

/// The expiry operand of `SET key value [PX ms]`: the milliseconds in
/// canonical decimal where `PX` is followed by a 64-bit integer, else
/// `MAX_VALUE`.
pub open spec fn expiry_operand(a: Seq<ElemModel>) -> Seq<char> {
    if a.len() >= 4 && ascii_upper(a[2].0) == px_word() && text_to_i64(a[3].0) is Some {
        signed_decimal(text_to_i64(a[3].0)->0 as int)
    } else {
        max_value_word()
    }
}

/// The operands of `SET` laid out as key, value and expiry operand.
pub open spec fn normalize_set(a: Seq<ElemModel>) -> Seq<ElemModel> {
    if a.len() < 2 {
        a
    } else {
        seq![a[0], a[1], (expiry_operand(a), ContentType::BulkString)]
    }
}

/// Recognises the command of a decoded request: a first element that is a
/// string naming a command, in any ASCII case, becomes the command and leaves
/// the operands.
pub open spec fn recognize(r: RequestModel) -> RequestModel {
    if r.1.len() > 0 && (r.1[0].1 == ContentType::String || r.1[0].1 == ContentType::BulkString)
        && keyword(ascii_upper(r.1[0].0)) != Command::Unknown {
        let c = keyword(ascii_upper(r.1[0].0));
        let rest = r.1.drop_first();
        (c, if c == Command::SetKey {
            normalize_set(rest)
        } else {
            rest
        }, r.2)
    } else {
        r
    }
}

fn word_command(w: &[char]) -> (c: Command)
    ensures
        c == keyword(ascii_upper(w@)),
{
    let echo = vec!['E', 'C', 'H', 'O'];
    let get = vec!['G', 'E', 'T'];
    let set = vec!['S', 'E', 'T'];
    let ping = vec!['P', 'I', 'N', 'G'];
    let info = vec!['I', 'N', 'F', 'O'];
    let replconf = vec!['R', 'E', 'P', 'L', 'C', 'O', 'N', 'F'];
    assert(echo@ =~= echo_word());
    assert(get@ =~= get_word());
    assert(set@ =~= set_word());
    assert(ping@ =~= ping_word());
    assert(info@ =~= info_word());
    assert(replconf@ =~= replconf_word());
    if eq_upper(w, echo.as_slice()) {
        Command::Echo
    } else if eq_upper(w, get.as_slice()) {
        Command::Get
    } else if eq_upper(w, set.as_slice()) {
        Command::SetKey
    } else if eq_upper(w, ping.as_slice()) {
        Command::Ping
    } else if eq_upper(w, info.as_slice()) {
        Command::Info
    } else if eq_upper(w, replconf.as_slice()) {
        Command::Replconf
    } else {
        Command::Unknown
    }
}

/// The text `MAX_VALUE`.
pub fn max_value_text() -> (r: String)
    ensures
        r@ == max_value_word(),
{
    let v = vec!['M', 'A', 'X', '_', 'V', 'A', 'L', 'U', 'E'];
    assert(v@ =~= max_value_word());
    string_of(&v)
}

fn expiry_of(a: &Vec<Content>) -> (r: String)
    ensures
        r@ == expiry_operand(a@.map_values(|c: Content| c@)),
{
    let ghost m = a@.map_values(|c: Content| c@);
    if a.len() >= 4 {
        let px = vec!['P', 'X'];
        assert(px@ =~= px_word());
        let flag = chars_of(a[2].content.as_str());
        assert(m[2].0 == a@[2].content@);
        assert(m[3].0 == a@[3].content@);
        if eq_upper(flag.as_slice(), px.as_slice()) {
            if let Some(n) = parse_i64(a[3].content.as_str()) {
                let mut out: Vec<char> = Vec::new();
                push_signed_decimal(&mut out, n);
                assert(out@ =~= signed_decimal(n as int));
                return string_of(&out);
            }
        }
    }
    max_value_text()
}

impl RespRequest {
    /// Recognises the command named by the first element (see `recognize`).
    pub fn parse_command(resp_struct: RespRequest) -> (r: RespRequest)
        ensures
            r@ == recognize(resp_struct@),
    {
        let mut req = resp_struct;
        if req.arguments.len() == 0 {
            return req;
        }
        let t = req.arguments[0].content_type;
        if !(t == ContentType::String || t == ContentType::BulkString) {
            return req;
        }
        let ghost before = req@;
        let word = chars_of(req.arguments[0].content.as_str());
        assert(before.1[0].0 == word@);
        let c = word_command(word.as_slice());
        if c == Command::Unknown {
            return req;
        }
        req.arguments.remove(0);
        req.command = c;
        assert(req@.1 =~= before.1.drop_first());
        if c == Command::SetKey && req.arguments.len() >= 2 {
            let ghost rest = req@.1;
            let expiry = expiry_of(&req.arguments);
            req.arguments.truncate(2);
            req.arguments.push(Content { content: expiry, content_type: ContentType::BulkString });
            assert(req@.1 =~= normalize_set(rest));
        }
        req
    }
}

/// Decodes one read buffer into a request and recognises its command.
pub fn handle_resp_request(resp_request: String) -> (r: RespRequest)
    ensures
        r@ == recognize(decode_spec(resp_request@)),
{
    let decoded = decode(resp_request.as_str());
    RespRequest::parse_command(decoded)
}

proof fn lemma_lines_split(a: Seq<char>, b: Seq<char>, cur: Seq<char>)
    requires
        forall|i: int| 0 <= i < a.len() ==> a[i] != '\n',
    ensures
        lines_after(a + seq!['\n'] + b, cur) == seq![strip_cr(cur + a)] + lines_after(
            b,
            Seq::empty(),
        ),
    decreases a.len(),
{
    let s = a + seq!['\n'] + b;
    if a.len() == 0 {
        assert(s =~= seq!['\n'] + b);
        assert(s.drop_first() =~= b);
        assert(cur + a =~= cur);
    } else {
        assert(s[0] == a[0]);
        assert(s.drop_first() =~= a.drop_first() + seq!['\n'] + b);
        lemma_lines_split(a.drop_first(), b, cur.push(a[0]));
        assert(cur.push(a[0]) + a.drop_first() =~= cur + a);
    }
}

proof fn lemma_digit_char(k: int)
    requires
        0 <= k < 10,
    ensures
        is_digit(digit_char(k)),
        digit_value(digit_char(k)) == k,
{
    assert(('0' as int) == 48);
    if k == 0 {
        assert(('0' as int) == 48);
    } else if k == 1 {
        assert(('1' as int) == 49);
    } else if k == 2 {
        assert(('2' as int) == 50);
    } else if k == 3 {
        assert(('3' as int) == 51);
    } else if k == 4 {
        assert(('4' as int) == 52);
    } else if k == 5 {
        assert(('5' as int) == 53);
    } else if k == 6 {
        assert(('6' as int) == 54);
    } else if k == 7 {
        assert(('7' as int) == 55);
    } else if k == 8 {
        assert(('8' as int) == 56);
    } else {
        assert(('9' as int) == 57);
    }
}

proof fn lemma_decimal_digits(n: nat)
    ensures
        is_digits(decimal(n)),
        digits_value(decimal(n)) == n,
    decreases n,
{
    if n < 10 {
        lemma_digit_char(n as int);
        let d = decimal(n);
        assert(d.drop_last() =~= Seq::<char>::empty());
        assert(digits_value(d.drop_last()) == 0);
        assert(d.last() == digit_char(n as int));
    } else {
        lemma_decimal_digits(n / 10);
        lemma_digit_char((n % 10) as int);
        let d = decimal(n);
        assert(d.drop_last() =~= decimal(n / 10));
        assert(d.last() == digit_char((n % 10) as int));
        assert((n / 10) * 10 + n % 10 == n) by (nonlinear_arith);
        assert forall|i: int| 0 <= i < d.len() implies is_digit(#[trigger] d[i]) by {
            if i < d.len() - 1 {
                assert(d[i] == decimal(n / 10)[i]);
            }
        }
    }
}

proof fn lemma_clamp_whole(v: Seq<char>)
    ensures
        clamp_bytes(v, utf8_len(v) as int) == v,
    decreases v.len(),
{
    if v.len() > 0 {
        lemma_clamp_whole(v.drop_first());
        assert(seq![v[0]] + v.drop_first() =~= v);
    }
}

proof fn lemma_bulk_lines(v: Seq<char>)
    requires
        forall|i: int| 0 <= i < v.len() ==> v[i] != '\n',
    ensures
        lines_of(bulk_spec(v)) == seq![seq!['$'] + decimal(utf8_len(v)), v],
{
    let d = decimal(utf8_len(v));
    lemma_decimal_digits(utf8_len(v));
    let a = seq!['$'] + d + seq!['\r'];
    let b = v + seq!['\r'];
    let s = bulk_spec(v);
    assert(s =~= a + seq!['\n'] + (b + seq!['\n'] + Seq::<char>::empty()));
    assert forall|i: int| 0 <= i < a.len() implies a[i] != '\n' by {
        if 0 < i < a.len() - 1 {
            assert(a[i] == d[i - 1]);
            assert(is_digit(d[i - 1]));
        }
    }
    assert forall|i: int| 0 <= i < b.len() implies b[i] != '\n' by {
        if i < v.len() {
            assert(b[i] == v[i]);
        }
    }
    lemma_lines_split(a, b + seq!['\n'] + Seq::<char>::empty(), Seq::empty());
    lemma_lines_split(b, Seq::<char>::empty(), Seq::empty());
    assert(Seq::<char>::empty() + a =~= a);
    assert(Seq::<char>::empty() + b =~= b);
    assert(strip_cr(a) =~= seq!['$'] + d);
    assert(strip_cr(b) =~= v);
    assert(lines_after(Seq::<char>::empty(), Seq::<char>::empty()) =~= Seq::<Seq<char>>::empty());
    assert(lines_of(s) =~= seq![seq!['$'] + d, v]);
}

/// Decoding the bulk-string encoding of a text gives that text back as the
/// single element, tagged as a bulk string, for every text without a line
/// feed whose UTF-8 length fits in `usize`.
pub proof fn law_bulk_round_trip(v: Seq<char>)
    requires
        forall|i: int| 0 <= i < v.len() ==> v[i] != '\n',
        utf8_len(v) <= usize::MAX,
    ensures
        decode_spec(bulk_spec(v)).1 == seq![(v, ContentType::BulkString)],
        decode_spec(bulk_spec(v)).2 == ContentType::BulkString,
{
    let d = decimal(utf8_len(v));
    lemma_decimal_digits(utf8_len(v));
    lemma_clamp_whole(v);
    lemma_bulk_lines(v);
    let s = bulk_spec(v);
    let first = seq!['$'] + d;
    let lines = lines_of(s);
    assert(lines[0] == first);
    assert(lines[1] == v);
    assert(first.drop_first() =~= d);
    assert(is_digit(d[0]));
    assert(text_to_usize(d) == Some(utf8_len(v) as usize));
    assert(length_or_zero(first.drop_first()) == utf8_len(v));
    assert(!is_array_line(first));
    let r = with_elem(empty_request(), v, ContentType::BulkString, true);
    assert(decode_line(lines, 1, first, true, empty_request(), 2) == Some((r, 2int)));
    assert(r.1 =~= seq![(v, ContentType::BulkString)]);
}

} // verus!
