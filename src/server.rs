//! The command dispatcher and the replication metadata it reports.

use vstd::prelude::*;
use crate::resp::{
    bulk_spec, max_value_word, push_bulk, Command, Content, ContentType, ElemModel, RequestModel,
    RespRequest,
};
use crate::storage::{millis, now_stamp, replaced, TimeKeyValueStorage};
use crate::text::{
    chars_of, decimal, parse_i64, push_all, push_decimal, push_signed_decimal, signed_decimal,
    string_of, text_of,
    text_to_i64,
};

verus! {

/// The role this server plays in replication.
#[derive(Debug, Clone, Copy, PartialEq, Eq, Structural)]
pub enum Role {
    Master,
    Slave,
}

pub open spec fn role_name(r: Role) -> Seq<char> {
    match r {
        Role::Master => "master"@,
        Role::Slave => "slave"@,
    }
}

pub open spec fn role_title(r: Role) -> Seq<char> {
    match r {
        Role::Master => "Master"@,
        Role::Slave => "Slave"@,
    }
}

impl Role {
    /// The role in lower case, as INFO reports it.
    pub fn name(&self) -> (r: String)
        ensures
            r@ == role_name(*self),
    {
        match self {
            Role::Master => text_of("master"),
            Role::Slave => text_of("slave"),
        }
    }

    /// The role's own name, capitalised.
    pub fn title(&self) -> (r: String)
        ensures
            r@ == role_title(*self),
    {
        match self {
            Role::Master => text_of("Master"),
            Role::Slave => text_of("Slave"),
        }
    }
}

/// Replication metadata: the role, the replication id and offsets, and a
/// counter of peers that asked for INFO.
#[derive(Debug, Clone)]
pub struct RedisReplicationState {
    pub role: Role,
    pub connected_slaves: usize,
    pub master_replid: String,
    pub master_repl_offset: usize,
    pub second_repl_offset: i32,
    pub repl_acklog_active: usize,
    pub repl_backlog_size: i32,
    pub repl_backlog_first_byte_offset: usize,
    pub repl_backlog_histlen: i32,
}

pub open spec fn default_replid() -> Seq<char> {
    "8371b4fb1155b71f4a04d3e1bc3e18c4a990aeeb"@
}

impl RedisReplicationState {
    /// A master with the fixed replication id and every counter at zero.
    pub fn new() -> (r: Self)
        ensures
            r.role == Role::Master,
            r.connected_slaves == 0,
            r.master_replid@ == default_replid(),
            r.master_repl_offset == 0,
            r.second_repl_offset == 0,
            r.repl_acklog_active == 0,
            r.repl_backlog_size == 0,
            r.repl_backlog_first_byte_offset == 0,
            r.repl_backlog_histlen == 0,
    {
        RedisReplicationState {
            role: Role::Master,
            connected_slaves: 0,
            master_replid: text_of("8371b4fb1155b71f4a04d3e1bc3e18c4a990aeeb"),
            master_repl_offset: 0,
            second_repl_offset: 0,
            repl_acklog_active: 0,
            repl_backlog_size: 0,
            repl_backlog_first_byte_offset: 0,
            repl_backlog_histlen: 0,
        }
    }

    /// The replication section as lines `name:value`, after a `#Replication`
    /// heading.
    pub fn to_string_vec(self) -> (r: Vec<String>)
        ensures
            r@.map_values(|s: String| s@) == seq![
                "#Replication"@,
                "role:"@ + role_title(self.role),
                "connected_slaves:"@ + decimal(self.connected_slaves as nat),
                "master_replid:"@ + self.master_replid@,
                "second_repl_offset:"@ + signed_decimal(self.second_repl_offset as int),
                "repl_backlog_size:"@ + signed_decimal(self.repl_backlog_size as int),
                "repl_backlog_first_byte_offset:"@ + decimal(
                    self.repl_backlog_first_byte_offset as nat,
                ),
                "repl_backlog_histlen:"@ + signed_decimal(self.repl_backlog_histlen as int),
            ],
    {
        let mut out: Vec<String> = Vec::new();
        out.push(text_of("#Replication"));
        let title = self.title_line();
        out.push(title);
        out.push(labelled_number("connected_slaves:", self.connected_slaves as u64));
        let mut id = chars_of("master_replid:");
        let id_chars = chars_of(self.master_replid.as_str());
        push_all(&mut id, id_chars.as_slice());
        out.push(string_of(&id));
        out.push(labelled_signed("second_repl_offset:", self.second_repl_offset as i64));
        out.push(labelled_signed("repl_backlog_size:", self.repl_backlog_size as i64));
        out.push(
            labelled_number(
                "repl_backlog_first_byte_offset:",
                self.repl_backlog_first_byte_offset as u64,
            ),
        );
        out.push(labelled_signed("repl_backlog_histlen:", self.repl_backlog_histlen as i64));
        assert(out@.map_values(|s: String| s@) =~= seq![
            "#Replication"@,
            "role:"@ + role_title(self.role),
            "connected_slaves:"@ + decimal(self.connected_slaves as nat),
            "master_replid:"@ + self.master_replid@,
            "second_repl_offset:"@ + signed_decimal(self.second_repl_offset as int),
            "repl_backlog_size:"@ + signed_decimal(self.repl_backlog_size as int),
            "repl_backlog_first_byte_offset:"@ + decimal(
                self.repl_backlog_first_byte_offset as nat,
            ),
            "repl_backlog_histlen:"@ + signed_decimal(self.repl_backlog_histlen as int),
        ]);
        out
    }

    fn title_line(&self) -> (r: String)
        ensures
            r@ == "role:"@ + role_title(self.role),
    {
        let mut v = chars_of("role:");
        let t = self.role.title();
        let tc = chars_of(t.as_str());
        push_all(&mut v, tc.as_slice());
        string_of(&v)
    }
}

fn labelled_number(label: &str, n: u64) -> (r: String)
    ensures
        r@ == label@ + decimal(n as nat),
{
    let mut v = chars_of(label);
    push_decimal(&mut v, n);
    string_of(&v)
}

fn labelled_signed(label: &str, n: i64) -> (r: String)
    ensures
        r@ == label@ + signed_decimal(n as int),
{
    let mut v = chars_of(label);
    push_signed_decimal(&mut v, n);
    string_of(&v)
}

/// The text of the INFO replication reply, one `name:value` per line.
pub open spec fn info_text(s: RedisReplicationState) -> Seq<char> {
    "role:"@ + role_name(s.role) + "\nmaster_replid:"@ + s.master_replid@
        + "\nmaster_repl_offset:"@ + decimal(s.master_repl_offset as nat) + "\n"@
}

fn info_reply(state: &RedisReplicationState) -> (r: String)
    ensures
        r@ == bulk_spec(info_text(*state)),
{
    let mut v = chars_of("role:");
    let name = state.role.name();
    push_all(&mut v, chars_of(name.as_str()).as_slice());
    push_all(&mut v, chars_of("\nmaster_replid:").as_slice());
    push_all(&mut v, chars_of(state.master_replid.as_str()).as_slice());
    push_all(&mut v, chars_of("\nmaster_repl_offset:").as_slice());
    push_decimal(&mut v, state.master_repl_offset as u64);
    v.push('\n');
    proof {
        reveal_strlit("\n");
    }
    assert(v@ =~= info_text(*state));
    let content = string_of(&v);
    let mut out: Vec<char> = Vec::new();
    push_bulk(&mut out, &content);
    assert(out@ =~= bulk_spec(info_text(*state)));
    string_of(&out)
}

/// The bulk strings of the elements tagged as bulk strings, in order.
pub open spec fn bulk_args(args: Seq<ElemModel>) -> Seq<char>
    decreases args.len(),
{
    if args.len() == 0 {
        Seq::empty()
    } else {
        bulk_args(args.drop_last()) + if args.last().1 == ContentType::BulkString {
            bulk_spec(args.last().0)
        } else {
            Seq::empty()
        }
    }
}

/// The reply to ECHO: nothing for no operand, the operand as a bulk string
/// for one, and for more an array header that counts every operand followed
/// by those operands that are bulk strings.
pub open spec fn echo_reply(args: Seq<ElemModel>) -> Seq<char> {
    if args.len() == 0 {
        Seq::empty()
    } else if args.len() == 1 {
        bulk_spec(args[0].0)
    } else {
        "*"@ + decimal(args.len()) + "\r\n"@ + bulk_args(args)
    }
}

fn echo(args: &Vec<Content>) -> (r: String)
    ensures
        r@ == echo_reply(args@.map_values(|c: Content| c@)),
{
    let ghost m = args@.map_values(|c: Content| c@);
    let mut out: Vec<char> = Vec::new();
    if args.len() == 0 {
        assert(out@ =~= echo_reply(m));
        return string_of(&out);
    }
    if args.len() == 1 {
        push_bulk(&mut out, &args[0].content);
        assert(out@ =~= echo_reply(m));
        return string_of(&out);
    }
    out.push('*');
    push_decimal(&mut out, args.len() as u64);
    out.push('\r');
    out.push('\n');
    proof {
        reveal_strlit("*");
        reveal_strlit("\r\n");
    }
    let ghost head = out@;
    assert(head =~= "*"@ + decimal(m.len()) + "\r\n"@);
    let mut i: usize = 0;
    while i < args.len()
        invariant
            i <= args@.len(),
            m == args@.map_values(|c: Content| c@),
            out@ == head + bulk_args(m.take(i as int)),
        decreases args@.len() - i,
    {
        if args[i].content_type == ContentType::BulkString {
            push_bulk(&mut out, &args[i].content);
        }
        i = i + 1;
        assert(m.take(i as int).drop_last() =~= m.take(i as int - 1));
        assert(out@ =~= head + bulk_args(m.take(i as int)));
    }
    assert(m.take(i as int) =~= m);
    string_of(&out)
}

/// The expiry that a SET operand list asks for: never, where the operand is
/// missing or reads `MAX_VALUE`; else the operand read as a 64-bit integer,
/// or `None` where it does not read as one.
pub open spec fn set_expiry(args: Seq<ElemModel>) -> Option<i64> {
    if args.len() < 3 || args[2].0 == max_value_word() {
        Some(i64::MAX)
    } else {
        text_to_i64(args[2].0)
    }
}

/// The reply to a request, or `None` where the request is unfit for any
/// reply and the connection is to be dropped: an unknown command or GET with
/// no operand, or SET with an expiry that does not read as an integer.
/// `found` is what the store holds for GET's key at the time of the request.
pub open spec fn reply_spec(
    req: RequestModel,
    found: Option<Seq<char>>,
    state: RedisReplicationState,
) -> Option<Seq<char>> {
    let args = req.1;
    match req.0 {
        Command::Unknown => if args.len() == 0 {
            None
        } else {
            Some("-ERR Unknown command '"@ + args[0].0 + "'\r\n"@)
        },
        Command::Ping => Some("+PONG\r\n"@),
        Command::Echo => Some(echo_reply(args)),
        Command::SetKey => if args.len() < 2 {
            Some("-ERR wrong number of arguments for 'get' command\r\n"@)
        } else if set_expiry(args) is None {
            None
        } else {
            Some("+OK\r\n"@)
        },
        Command::Get => if args.len() == 0 {
            None
        } else {
            match found {
                Some(v) => Some(bulk_spec(v)),
                None => Some("$-1\r\n"@),
            }
        },
        Command::Info => if args.len() > 0 && args[0].0 == "replication"@ {
            Some(bulk_spec(info_text(state)))
        } else {
            Some("$-1\r\n"@)
        },
        Command::Replconf => Some("+OK\r\n"@),
    }
}

pub open spec fn found_view(v: Option<String>) -> Option<Seq<char>> {
    match v {
        Some(s) => Some(s@),
        None => None,
    }
}

pub open spec fn reply_view(r: Option<String>) -> Option<Seq<char>> {
    found_view(r)
}

/// The replication state after INFO: one more peer counted (the count stays
/// at its maximum once there).
pub open spec fn counted(s: RedisReplicationState) -> RedisReplicationState {
    RedisReplicationState {
        connected_slaves: if s.connected_slaves < usize::MAX {
            (s.connected_slaves + 1) as usize
        } else {
            s.connected_slaves
        },
        ..s
    }
}

/// What a request does to the store: SET with two operands and a usable
/// expiry replaces the key's entry with the value, under the stamp the store
/// gives a write at `now` (unless no fresh stamp is left); nothing else
/// changes it.
pub open spec fn store_effect(
    req: RequestModel,
    before: TimeKeyValueStorage<String>,
    after: TimeKeyValueStorage<String>,
    now: u64,
) -> bool {
    if req.0 == Command::SetKey && req.1.len() >= 2 && set_expiry(req.1) is Some
        && !before.exhausted(now) {
        exists|v: String|
            v@ == req.1[1].0 && replaced(
                before,
                after,
                req.1[0].0,
                v,
                set_expiry(req.1)->0,
                before.next_stamp(now),
            )
    } else {
        after == before
    }
}

/// Answers one request at the instant `now`. SET with a usable expiry
/// replaces the key's entry in the store; INFO counts one more peer;
/// nothing else changes either.
pub fn respond_at(
    request: &RespRequest,
    storage: &mut TimeKeyValueStorage<String>,
    state: &mut RedisReplicationState,
    now: u64,
) -> (r: Option<String>)
    requires
        old(storage).wf(),
    ensures
        final(storage).wf(),
        reply_view(r) == reply_spec(
            request@,
            found_view(old(storage).lookup(request@.1[0].0, now)),
            *old(state),
        ),
        store_effect(request@, *old(storage), *final(storage), now),
        forall|k: Seq<char>, t: u64|
            (request@.1.len() == 0 || k != request@.1[0].0) ==> #[trigger] final(storage).lookup(
                k,
                t,
            ) == old(storage).lookup(k, t),
        *final(state) == if request.command == Command::Info {
            counted(*old(state))
        } else {
            *old(state)
        },
{
    let ghost args = request@.1;
    let ghost found = found_view(storage.lookup(args[0].0, now));
    proof {
        reveal_strlit("+PONG\r\n");
        reveal_strlit("+OK\r\n");
        reveal_strlit("$-1\r\n");
    }
    match request.command {
        Command::Unknown => {
            if request.arguments.len() == 0 {
                return None;
            }
            let mut v = chars_of("-ERR Unknown command '");
            push_all(&mut v, chars_of(request.arguments[0].content.as_str()).as_slice());
            push_all(&mut v, chars_of("'\r\n").as_slice());
            assert(args[0].0 == request.arguments@[0].content@);
            Some(string_of(&v))
        },
        Command::Ping => Some(text_of("+PONG\r\n")),
        Command::Echo => Some(echo(&request.arguments)),
        Command::SetKey => {
            if request.arguments.len() < 2 {
                return Some(text_of("-ERR wrong number of arguments for 'get' command\r\n"));
            }
            assert(args[0].0 == request.arguments@[0].content@);
            assert(args[1].0 == request.arguments@[1].content@);
            let expiry: i64 = if request.arguments.len() < 3 {
                i64::MAX
            } else {
                assert(args[2].0 == request.arguments@[2].content@);
                let text = &request.arguments[2].content;
                let marker = crate::resp::max_value_text();
                if *text == marker {
                    i64::MAX
                } else {
                    match parse_i64(text.as_str()) {
                        Some(n) => n,
                        None => {
                            return None;
                        },
                    }
                }
            };
            let key = request.arguments[0].content.clone();
            let value = request.arguments[1].content.clone();
            storage.update_at(key, value, expiry, now);
            Some(text_of("+OK\r\n"))
        },
        Command::Get => {
            if request.arguments.len() == 0 {
                return None;
            }
            assert(args[0].0 == request.arguments@[0].content@);
            match storage.get_at(&request.arguments[0].content, now) {
                Some(v) => {
                    let mut out: Vec<char> = Vec::new();
                    push_bulk(&mut out, v);
                    assert(out@ =~= bulk_spec(v@));
                    Some(string_of(&out))
                },
                None => Some(text_of("$-1\r\n")),
            }
        },
        Command::Info => {
            if state.connected_slaves < usize::MAX {
                state.connected_slaves = state.connected_slaves + 1;
            }
            let ghost before = *old(state);
            assert(*state == counted(before));
            let replication = text_of("replication");
            if request.arguments.len() > 0 && request.arguments[0].content == replication {
                assert(args[0].0 == request.arguments@[0].content@);
                Some(info_reply(&*state))
            } else {
                Some(text_of("$-1\r\n"))
            }
        },
        Command::Replconf => Some(text_of("+OK\r\n")),
    }
}

/// Answers one request at the current instant (see `respond_at`).
pub fn handle_request(
    request: &RespRequest,
    storage: &mut TimeKeyValueStorage<String>,
    state: &mut RedisReplicationState,
) -> (r: Option<String>)
    requires
        old(storage).wf(),
    ensures
        final(storage).wf(),
        exists|now: u64|
            reply_view(r) == reply_spec(
                request@,
                found_view(old(storage).lookup(request@.1[0].0, now)),
                *old(state),
            ) && store_effect(request@, *old(storage), *final(storage), now),
        forall|k: Seq<char>, t: u64|
            (request@.1.len() == 0 || k != request@.1[0].0) ==> #[trigger] final(storage).lookup(
                k,
                t,
            ) == old(storage).lookup(k, t),
        *final(state) == if request.command == Command::Info {
            counted(*old(state))
        } else {
            *old(state)
        },
{
    let now = now_stamp();
    respond_at(request, storage, state, now)
}

/// A SET of a key with no expiry, followed by a GET of that key, is answered
/// with the value as a bulk string, whenever the GET comes.
pub proof fn law_set_then_get(
    set: RequestModel,
    get: RequestModel,
    before: TimeKeyValueStorage<String>,
    after: TimeKeyValueStorage<String>,
    state: RedisReplicationState,
    t1: u64,
    t2: u64,
)
    requires
        set.0 == Command::SetKey,
        set.1.len() >= 2,
        set_expiry(set.1) == Some(i64::MAX),
        !before.exhausted(t1),
        store_effect(set, before, after, t1),
        get.0 == Command::Get,
        get.1.len() >= 1,
        get.1[0].0 == set.1[0].0,
    ensures
        reply_spec(get, found_view(after.lookup(get.1[0].0, t2)), state) == Some(
            bulk_spec(set.1[1].0),
        ),
{
    let v = choose|v: String|
        v@ == set.1[1].0 && replaced(
            before,
            after,
            set.1[0].0,
            v,
            i64::MAX,
            before.next_stamp(t1),
        );
    assert(after.lookup(set.1[0].0, t2) == Some(v));
}

/// A SET of a key with an expiry of `e` milliseconds made at `t1`, after
/// every earlier write, followed by a GET of that key whose whole
/// milliseconds are past those of `t1` plus `e`, is answered with `$-1`.
pub proof fn law_set_then_get_expired(
    set: RequestModel,
    get: RequestModel,
    before: TimeKeyValueStorage<String>,
    after: TimeKeyValueStorage<String>,
    state: RedisReplicationState,
    e: i64,
    t1: u64,
    t2: u64,
)
    requires
        set.0 == Command::SetKey,
        set.1.len() >= 2,
        set_expiry(set.1) == Some(e),
        e != i64::MAX,
        t1 > before.last_stamp(),
        store_effect(set, before, after, t1),
        get.0 == Command::Get,
        get.1.len() >= 1,
        get.1[0].0 == set.1[0].0,
        millis(t2) > millis(t1) + e,
    ensures
        reply_spec(get, found_view(after.lookup(get.1[0].0, t2)), state) == Some("$-1\r\n"@),
{
    let v = choose|v: String|
        v@ == set.1[1].0 && replaced(before, after, set.1[0].0, v, e, t1);
    assert(after.lookup(set.1[0].0, t2) is None);
}

} // verus!
