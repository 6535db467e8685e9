//! ftpput: its options, the FTP conversation that uploads a file, and the
//! reading of the server's passive-mode answer.
use vstd::prelude::*;
use crate::applets::ip::{dotted, fmt_dotted, lemma_filter_map_push};
use crate::num::{decimal, fmt_dec, parse_dec, parse_dec_exec};
use crate::text::{
    chars_of, chars_of_all, concat, eq_lit, find_char, find_char_exec, push_all, push_str,
    slice_chars, split_exec, split_on, starts_with, starts_with_lit, string_of, to_string, trim,
    trim_chars, views, vviews,
};

verus! {

/// What an upload needs.
pub struct FtpConfig {
    pub user: String,
    pub pass: String,
    pub port: u16,
    pub host: String,
    pub remote: String,
    pub local: String,
}

pub struct ConfigView {
    pub user: Seq<char>,
    pub pass: Seq<char>,
    pub port: u16,
    pub host: Seq<char>,
    pub remote: Seq<char>,
    pub local: Seq<char>,
}

impl View for FtpConfig {
    type V = ConfigView;

    open spec fn view(&self) -> ConfigView {
        ConfigView {
            user: self.user@,
            pass: self.pass@,
            port: self.port,
            host: self.host@,
            remote: self.remote@,
            local: self.local@,
        }
    }
}

/// The options read so far and the other words.
pub struct ArgState {
    pub user: Seq<char>,
    pub pass: Seq<char>,
    pub port: u16,
    pub positional: Seq<Seq<char>>,
}

pub open spec fn arg_start() -> ArgState {
    ArgState { user: "anonymous"@, pass: "ftp@"@, port: 21, positional: seq![] }
}

/// A port number, or 21 where the text is not one.
pub open spec fn port_or_default(s: Seq<char>) -> u16 {
    match parse_dec(s, u16::MAX as nat) {
        Some(v) => v as u16,
        None => 21,
    }
}

/// Reading the words from `i` on: `-u USER`, `-p PASS`, `-P PORT`; other
/// words are kept in order. `None`: help was asked for.
pub open spec fn arg_scan(args: Seq<Seq<char>>, i: int, st: ArgState) -> Option<ArgState>
    decreases args.len() - i,
{
    if i < 0 || i >= args.len() {
        Some(st)
    } else {
        let a = args[i];
        if a == "-u"@ || a == "-p"@ || a == "-P"@ {
            if i + 1 < args.len() {
                let v = args[i + 1];
                let st2 = if a == "-u"@ {
                    ArgState { user: v, ..st }
                } else if a == "-p"@ {
                    ArgState { pass: v, ..st }
                } else {
                    ArgState { port: port_or_default(v), ..st }
                };
                arg_scan(args, i + 2, st2)
            } else {
                Some(st)
            }
        } else if a == "-h"@ || a == "--help"@ {
            None
        } else {
            arg_scan(args, i + 1, ArgState { positional: st.positional.push(a), ..st })
        }
    }
}

/// How ftpput starts.
pub enum FtpStart {
    /// Print the usage and succeed.
    Help,
    /// Fewer than three of HOST, REMOTE, LOCAL: print the usage and fail.
    Usage,
    Run(FtpConfig),
}

pub enum StartView {
    Help,
    Usage,
    Run(ConfigView),
}

impl View for FtpStart {
    type V = StartView;

    open spec fn view(&self) -> StartView {
        match self {
            FtpStart::Help => StartView::Help,
            FtpStart::Usage => StartView::Usage,
            FtpStart::Run(c) => StartView::Run(c@),
        }
    }
}

pub open spec fn start_spec(args: Seq<Seq<char>>) -> StartView {
    match arg_scan(args, 0, arg_start()) {
        None => StartView::Help,
        Some(st) => if st.positional.len() < 3 {
            StartView::Usage
        } else {
            StartView::Run(
                ConfigView {
                    user: st.user,
                    pass: st.pass,
                    port: st.port,
                    host: st.positional[0],
                    remote: st.positional[1],
                    local: st.positional[2],
                },
            )
        },
    }
}

/// What ftpput does with the words of its invocation (see `start_spec`).
pub fn start(args: &[String]) -> (r: FtpStart)
    ensures
        r@ == start_spec(views(args@)),
{
    let ghost av = views(args@);
    let cs = chars_of_all(args);
    let n = args.len();
    let mut user = to_string("anonymous");
    let mut pass = to_string("ftp@");
    let mut port: u16 = 21;
    let mut positional: Vec<String> = Vec::new();
    assert(views(positional@) =~= Seq::<Seq<char>>::empty());
    let mut i: usize = 0;
    while i < n
        invariant
            n == args@.len(),
            cs@.len() == n,
            av == views(args@),
            forall|k: int| 0 <= k < n ==> #[trigger] cs@[k]@ == args@[k]@,
            i <= n,
            arg_scan(
                av,
                i as int,
                ArgState { user: user@, pass: pass@, port, positional: views(positional@) },
            ) == arg_scan(av, 0, arg_start()),
        decreases n - i,
    {
        let a = cs[i].as_slice();
        assert(av[i as int] == a@);
        let is_u = eq_lit(a, "-u");
        let is_p = eq_lit(a, "-p");
        let is_port = eq_lit(a, "-P");
        if is_u || is_p || is_port {
            if i + 1 < n {
                assert(av[i + 1] == cs@[i + 1]@);
                if is_u {
                    user = args[i + 1].clone();
                } else if is_p {
                    pass = args[i + 1].clone();
                } else {
                    port = match parse_dec_exec(cs[i + 1].as_slice(), 65535) {
                        Some(v) => v as u16,
                        None => 21,
                    };
                }
                i = i + 2;
            } else {
                i = n;
            }
        } else if eq_lit(a, "-h") || eq_lit(a, "--help") {
            return FtpStart::Help;
        } else {
            let ghost before = views(positional@);
            positional.push(args[i].clone());
            assert(views(positional@) =~= before.push(a@));
            i = i + 1;
        }
    }
    if positional.len() < 3 {
        return FtpStart::Usage;
    }
    assert(views(positional@)[0] == positional@[0]@);
    assert(views(positional@)[1] == positional@[1]@);
    assert(views(positional@)[2] == positional@[2]@);
    FtpStart::Run(
        FtpConfig {
            user,
            pass,
            port,
            host: positional[0].clone(),
            remote: positional[1].clone(),
            local: positional[2].clone(),
        },
    )
}

/// The numbers between the parentheses of a passive-mode answer: the
/// pieces between commas that, trimmed, are `u16` numbers.
pub open spec fn pasv_numbers(inner: Seq<char>) -> Seq<nat> {
    split_on(inner, ',').filter_map(|p: Seq<char>| parse_dec(trim(p), u16::MAX as nat))
}

/// The text between the first `(` and the first `)`, where both occur and
/// in that order.
pub open spec fn pasv_inner(r: Seq<char>) -> Option<Seq<char>> {
    match (find_char(r, '('), find_char(r, ')')) {
        (Some(s), Some(e)) => if s + 1 <= e {
            Some(r.subrange(s + 1, e))
        } else {
            None
        },
        _ => None,
    }
}

/// The answer cannot be read without failing: its first `)` comes before
/// its first `(`, or the port's two numbers overflow a `u16`.
pub open spec fn pasv_fails(r: Seq<char>) -> bool {
    match (find_char(r, '('), find_char(r, ')')) {
        (Some(s), Some(e)) => if s + 1 > e {
            true
        } else {
            let n = pasv_numbers(r.subrange(s + 1, e));
            n.len() == 6 && n[4] * 256 + n[5] > u16::MAX
        },
        _ => false,
    }
}

/// The data address of a passive-mode answer: `a.b.c.d:port` from the six
/// numbers `(a,b,c,d,p1,p2)`, the port being `p1 * 256 + p2`.
pub open spec fn pasv_spec(r: Seq<char>) -> Option<Seq<char>> {
    match pasv_inner(r) {
        None => None,
        Some(inner) => {
            let n = pasv_numbers(inner);
            if n.len() == 6 {
                Some(dotted(n[0], n[1], n[2], n[3]) + ":"@ + decimal(n[4] * 256 + n[5]))
            } else {
                None
            }
        },
    }
}

/// The numbers between the parentheses (see `pasv_numbers`).
fn pasv_numbers_exec(inner: &[char]) -> (nums: Vec<u64>)
    ensures
        nums@.map_values(|x: u64| x as nat) == pasv_numbers(inner@),
        forall|k: int| 0 <= k < nums@.len() ==> #[trigger] nums@[k] <= u16::MAX,
{
    let pieces = split_exec(inner, ',');
    let ghost pv = vviews(pieces@);
    let ghost f = |p: Seq<char>| parse_dec(trim(p), u16::MAX as nat);
    let mut nums: Vec<u64> = Vec::new();
    let mut i: usize = 0;
    assert(pv.take(0).filter_map(f) =~= Seq::<nat>::empty());
    while i < pieces.len()
        invariant
            i <= pieces@.len(),
            pv == vviews(pieces@),
            f == (|p: Seq<char>| parse_dec(trim(p), u16::MAX as nat)),
            nums@.map_values(|x: u64| x as nat) == pv.take(i as int).filter_map(f),
            forall|k: int| 0 <= k < nums@.len() ==> #[trigger] nums@[k] <= u16::MAX,
        decreases pieces@.len() - i,
    {
        assert(pv[i as int] == pieces@[i as int]@);
        let t = trim_chars(pieces[i].as_slice());
        proof {
            lemma_filter_map_push(pv.take(i as int), pv[i as int], f);
            assert(pv.take(i + 1) =~= pv.take(i as int).push(pv[i as int]));
        }
        let ghost before = nums@;
        match parse_dec_exec(t.as_slice(), 65535) {
            Some(v) => {
                nums.push(v);
                assert(nums@.map_values(|x: u64| x as nat) =~= before.map_values(
                    |x: u64| x as nat,
                ).push(v as nat));
            },
            None => {},
        }
        i = i + 1;
    }
    assert(pv.take(pieces@.len() as int) =~= pv);
    nums
}

/// The data address of a passive-mode answer (see `pasv_spec`).
pub fn parse_pasv(response: &str) -> (r: Option<String>)
    requires
        !pasv_fails(response@),
    ensures
        match r {
            Some(a) => pasv_spec(response@) == Some(a@),
            None => pasv_spec(response@) is None,
        },
{
    let rc = chars_of(response);
    let s = match find_char_exec(rc.as_slice(), '(') {
        Some(s) => s,
        None => {
            return None;
        },
    };
    let e = match find_char_exec(rc.as_slice(), ')') {
        Some(e) => e,
        None => {
            return None;
        },
    };
    let inner = slice_chars(rc.as_slice(), s + 1, e);
    let nums = pasv_numbers_exec(inner.as_slice());
    let ghost nv = nums@.map_values(|x: u64| x as nat);
    if nums.len() != 6 {
        return None;
    }
    assert(nv[4] == nums@[4] && nv[5] == nums@[5]);
    let port = nums[4] * 256 + nums[5];
    let mut out = fmt_dotted(nums[0], nums[1], nums[2], nums[3]);
    push_str(&mut out, ":");
    let d = fmt_dec(port);
    push_all(&mut out, d.as_slice());
    Some(string_of(out.as_slice()))
}

/// Where the conversation is.
#[derive(PartialEq, Eq, Structural, Clone, Copy)]
pub enum FtpPhase {
    /// Waiting for the greeting.
    Start,
    SentUser,
    SentPass,
    SentType,
    SentPasv,
    /// Connecting the data channel.
    Connecting,
    SentStor,
    /// Writing the file on the data channel.
    Uploading,
    /// Waiting for the answer to the upload.
    Finishing,
    Done,
}

/// What happened: an answer line from the server (empty where none could
/// be read), or the outcome of connecting or writing, with the error text.
pub enum FtpEvent {
    Reply(String),
    Connected(Result<(), String>),
    Written(Result<(), String>),
}

/// What to do next.
pub enum FtpAction {
    /// Send this command, then read an answer.
    Send(String),
    /// Connect the data channel to this address.
    Connect(String),
    /// Write the file on the data channel and close it.
    Upload,
    /// Send `QUIT` and succeed.
    Quit,
    /// Print `ftpput: ` and this message, and fail.
    Fail(String),
    /// The passive-mode answer cannot be read without failing (see
    /// `pasv_fails`).
    Abort,
}

pub enum EventView {
    Reply(Seq<char>),
    Connected(Result<(), Seq<char>>),
    Written(Result<(), Seq<char>>),
}

pub enum ActionView {
    Send(Seq<char>),
    Connect(Seq<char>),
    Upload,
    Quit,
    Fail(Seq<char>),
    Abort,
}

pub open spec fn result_view(r: Result<(), String>) -> Result<(), Seq<char>> {
    match r {
        Ok(()) => Ok(()),
        Err(e) => Err(e@),
    }
}

impl View for FtpEvent {
    type V = EventView;

    open spec fn view(&self) -> EventView {
        match self {
            FtpEvent::Reply(s) => EventView::Reply(s@),
            FtpEvent::Connected(r) => EventView::Connected(result_view(*r)),
            FtpEvent::Written(r) => EventView::Written(result_view(*r)),
        }
    }
}

impl View for FtpAction {
    type V = ActionView;

    open spec fn view(&self) -> ActionView {
        match self {
            FtpAction::Send(s) => ActionView::Send(s@),
            FtpAction::Connect(s) => ActionView::Connect(s@),
            FtpAction::Upload => ActionView::Upload,
            FtpAction::Quit => ActionView::Quit,
            FtpAction::Fail(s) => ActionView::Fail(s@),
            FtpAction::Abort => ActionView::Abort,
        }
    }
}

/// The upload is accepted: the answer starts with `150` or `125`.
pub open spec fn stor_accepted(reply: Seq<char>) -> bool {
    starts_with(reply, "150"@) || starts_with(reply, "125"@)
}

/// The next phase and action after event `ev` in phase `p`; `None` where
/// the event does not belong to the phase.
pub open spec fn step_spec(c: ConfigView, p: FtpPhase, ev: EventView) -> Option<(FtpPhase, ActionView)> {
    match (p, ev) {
        (FtpPhase::Start, EventView::Reply(_)) => Some(
            (FtpPhase::SentUser, ActionView::Send("USER "@ + c.user + "\r\n"@)),
        ),
        (FtpPhase::SentUser, EventView::Reply(_)) => Some(
            (FtpPhase::SentPass, ActionView::Send("PASS "@ + c.pass + "\r\n"@)),
        ),
        (FtpPhase::SentPass, EventView::Reply(_)) => Some(
            (FtpPhase::SentType, ActionView::Send("TYPE I\r\n"@)),
        ),
        (FtpPhase::SentType, EventView::Reply(_)) => Some(
            (FtpPhase::SentPasv, ActionView::Send("PASV\r\n"@)),
        ),
        (FtpPhase::SentPasv, EventView::Reply(r)) => if pasv_fails(r) {
            Some((FtpPhase::Done, ActionView::Abort))
        } else {
            match pasv_spec(r) {
                Some(a) => Some((FtpPhase::Connecting, ActionView::Connect(a))),
                None => Some(
                    (FtpPhase::Done, ActionView::Fail("failed to parse PASV response"@)),
                ),
            }
        },
        (FtpPhase::Connecting, EventView::Connected(Err(e))) => Some(
            (FtpPhase::Done, ActionView::Fail("data connection failed: "@ + e)),
        ),
        (FtpPhase::Connecting, EventView::Connected(Ok(()))) => Some(
            (FtpPhase::SentStor, ActionView::Send("STOR "@ + c.remote + "\r\n"@)),
        ),
        (FtpPhase::SentStor, EventView::Reply(r)) => if stor_accepted(r) {
            Some((FtpPhase::Uploading, ActionView::Upload))
        } else {
            Some((FtpPhase::Done, ActionView::Fail("STOR failed: "@ + r)))
        },
        (FtpPhase::Uploading, EventView::Written(Err(e))) => Some(
            (FtpPhase::Done, ActionView::Fail("upload failed: "@ + e)),
        ),
        (FtpPhase::Uploading, EventView::Written(Ok(()))) => Some(
            (FtpPhase::Finishing, ActionView::Send(seq![])),
        ),
        (FtpPhase::Finishing, EventView::Reply(_)) => Some((FtpPhase::Done, ActionView::Quit)),
        _ => None,
    }
}

fn command(verb: &str, arg: &str) -> (r: String)
    ensures
        r@ == verb@ + arg@ + "\r\n"@,
{
    let mut v = chars_of(verb);
    push_all(&mut v, chars_of(arg).as_slice());
    push_str(&mut v, "\r\n");
    string_of(v.as_slice())
}

fn message(head: &str, tail: &str) -> (r: String)
    ensures
        r@ == head@ + tail@,
{
    string_of(concat(chars_of(head).as_slice(), chars_of(tail).as_slice()).as_slice())
}

/// The next phase and action (see `step_spec`). After the upload the
/// answer is read without sending anything: the action is an empty
/// command.
pub fn step(c: &FtpConfig, p: FtpPhase, ev: FtpEvent) -> (r: Option<(FtpPhase, FtpAction)>)
    ensures
        match r {
            Some((np, a)) => step_spec(c@, p, ev@) == Some((np, a@)),
            None => step_spec(c@, p, ev@) is None,
        },
{
    match (p, ev) {
        (FtpPhase::Start, FtpEvent::Reply(_)) => Some(
            (FtpPhase::SentUser, FtpAction::Send(command("USER ", c.user.as_str()))),
        ),
        (FtpPhase::SentUser, FtpEvent::Reply(_)) => Some(
            (FtpPhase::SentPass, FtpAction::Send(command("PASS ", c.pass.as_str()))),
        ),
        (FtpPhase::SentPass, FtpEvent::Reply(_)) => Some(
            (FtpPhase::SentType, FtpAction::Send(to_string("TYPE I\r\n"))),
        ),
        (FtpPhase::SentType, FtpEvent::Reply(_)) => Some(
            (FtpPhase::SentPasv, FtpAction::Send(to_string("PASV\r\n"))),
        ),
        (FtpPhase::SentPasv, FtpEvent::Reply(r)) => {
            if pasv_fails_exec(r.as_str()) {
                return Some((FtpPhase::Done, FtpAction::Abort));
            }
            match parse_pasv(r.as_str()) {
                Some(a) => Some((FtpPhase::Connecting, FtpAction::Connect(a))),
                None => Some(
                    (FtpPhase::Done, FtpAction::Fail(to_string("failed to parse PASV response"))),
                ),
            }
        },
        (FtpPhase::Connecting, FtpEvent::Connected(Err(e))) => Some(
            (FtpPhase::Done, FtpAction::Fail(message("data connection failed: ", e.as_str()))),
        ),
        (FtpPhase::Connecting, FtpEvent::Connected(Ok(()))) => Some(
            (FtpPhase::SentStor, FtpAction::Send(command("STOR ", c.remote.as_str()))),
        ),
        (FtpPhase::SentStor, FtpEvent::Reply(r)) => {
            let rc = chars_of(r.as_str());
            if starts_with_lit(rc.as_slice(), "150") || starts_with_lit(rc.as_slice(), "125") {
                Some((FtpPhase::Uploading, FtpAction::Upload))
            } else {
                Some((FtpPhase::Done, FtpAction::Fail(message("STOR failed: ", r.as_str()))))
            }
        },
        (FtpPhase::Uploading, FtpEvent::Written(Err(e))) => Some(
            (FtpPhase::Done, FtpAction::Fail(message("upload failed: ", e.as_str()))),
        ),
        (FtpPhase::Uploading, FtpEvent::Written(Ok(()))) => Some(
            (FtpPhase::Finishing, FtpAction::Send(String::new())),
        ),
        (FtpPhase::Finishing, FtpEvent::Reply(_)) => Some((FtpPhase::Done, FtpAction::Quit)),
        _ => None,
    }
}

/// Whether the passive-mode answer cannot be read without failing (see
/// `pasv_fails`).
pub fn pasv_fails_exec(response: &str) -> (r: bool)
    ensures
        r == pasv_fails(response@),
{
    let rc = chars_of(response);
    let s = match find_char_exec(rc.as_slice(), '(') {
        Some(s) => s,
        None => {
            return false;
        },
    };
    let e = match find_char_exec(rc.as_slice(), ')') {
        Some(e) => e,
        None => {
            return false;
        },
    };
    if s + 1 > e {
        return true;
    }
    let inner = slice_chars(rc.as_slice(), s + 1, e);
    let nums = pasv_numbers_exec(inner.as_slice());
    let ghost nv = nums@.map_values(|x: u64| x as nat);
    if nums.len() != 6 {
        return false;
    }
    assert(nv[4] == nums@[4] && nv[5] == nums@[5]);
    nums[4] * 256 + nums[5] > 65535
}

} // verus!
