//! getty: its options, the terminal it opens, the host name it greets
//! with, and the user name it passes on.
use vstd::prelude::*;
use crate::text::{
    chars_of, chars_of_all, concat, contains_char, eq_lit, starts_with, starts_with_lit,
    string_of, to_string, trim, trim_chars, utf8_text, views,
};

verus! {

/// How getty runs.
pub struct GettyConfig {
    pub baud: String,
    pub tty: String,
    pub term: String,
    pub login: String,
    pub noclear: bool,
}

pub struct ConfigView {
    pub baud: Seq<char>,
    pub tty: Seq<char>,
    pub term: Seq<char>,
    pub login: Seq<char>,
    pub noclear: bool,
}

impl View for GettyConfig {
    type V = ConfigView;

    open spec fn view(&self) -> ConfigView {
        ConfigView {
            baud: self.baud@,
            tty: self.tty@,
            term: self.term@,
            login: self.login@,
            noclear: self.noclear,
        }
    }
}

pub open spec fn default_config() -> ConfigView {
    ConfigView {
        baud: "9600"@,
        tty: seq![],
        term: "linux"@,
        login: "/sbin/login"@,
        noclear: false,
    }
}

/// Reading the words from `i` on: `-n`, `-l LOGIN`, `-L` (ignored); the
/// other words not starting with `-` are, in turn, the speed (while it is
/// still `9600` and no terminal was named), the terminal, and the terminal
/// type. `None`: help was asked for.
pub open spec fn config_scan(args: Seq<Seq<char>>, i: int, c: ConfigView) -> Option<ConfigView>
    decreases args.len() - i,
{
    if i < 0 || i >= args.len() {
        Some(c)
    } else {
        let a = args[i];
        if a == "-L"@ || a == "--local-line"@ {
            config_scan(args, i + 1, c)
        } else if a == "-n"@ || a == "--noclear"@ {
            config_scan(args, i + 1, ConfigView { noclear: true, ..c })
        } else if a == "-l"@ {
            if i + 1 < args.len() {
                config_scan(args, i + 2, ConfigView { login: args[i + 1], ..c })
            } else {
                Some(c)
            }
        } else if a == "-h"@ || a == "--help"@ {
            None
        } else if !starts_with(a, "-"@) {
            if c.baud == "9600"@ && c.tty.len() == 0 {
                config_scan(args, i + 1, ConfigView { baud: a, ..c })
            } else if c.tty.len() == 0 {
                config_scan(args, i + 1, ConfigView { tty: a, ..c })
            } else {
                config_scan(args, i + 1, ConfigView { term: a, ..c })
            }
        } else {
            config_scan(args, i + 1, c)
        }
    }
}

/// How getty starts.
pub enum GettyStart {
    /// Print the usage and succeed.
    Help,
    /// No terminal was named: print the usage and fail.
    Usage,
    /// The terminal's path holds a NUL: `getty: invalid tty path`, fail.
    InvalidTtyPath,
    /// Open the terminal at `tty_path`.
    Run { config: GettyConfig, tty_path: String },
}

pub enum StartView {
    Help,
    Usage,
    InvalidTtyPath,
    Run { config: ConfigView, tty_path: Seq<char> },
}

impl View for GettyStart {
    type V = StartView;

    open spec fn view(&self) -> StartView {
        match self {
            GettyStart::Help => StartView::Help,
            GettyStart::Usage => StartView::Usage,
            GettyStart::InvalidTtyPath => StartView::InvalidTtyPath,
            GettyStart::Run { config, tty_path } => StartView::Run {
                config: config@,
                tty_path: tty_path@,
            },
        }
    }
}

/// The terminal's path: as named where it starts with `/`, else under
/// `/dev/`.
pub open spec fn tty_path_spec(tty: Seq<char>) -> Seq<char> {
    if starts_with(tty, "/"@) {
        tty
    } else {
        "/dev/"@ + tty
    }
}

pub open spec fn start_spec(args: Seq<Seq<char>>) -> StartView {
    match config_scan(args, 0, default_config()) {
        None => StartView::Help,
        Some(c) => if c.tty.len() == 0 {
            StartView::Usage
        } else if tty_path_spec(c.tty).contains('\0') {
            StartView::InvalidTtyPath
        } else {
            StartView::Run { config: c, tty_path: tty_path_spec(c.tty) }
        },
    }
}

/// What getty does with the words of its invocation (see `start_spec`).
pub fn start(args: &[String]) -> (r: GettyStart)
    ensures
        r@ == start_spec(views(args@)),
{
    let ghost av = views(args@);
    let cs = chars_of_all(args);
    let n = args.len();
    let mut c = GettyConfig {
        baud: to_string("9600"),
        tty: String::new(),
        term: to_string("linux"),
        login: to_string("/sbin/login"),
        noclear: false,
    };
    assert(c@ =~= default_config());
    let mut i: usize = 0;
    while i < n
        invariant
            n == args@.len(),
            cs@.len() == n,
            av == views(args@),
            forall|k: int| 0 <= k < n ==> #[trigger] cs@[k]@ == args@[k]@,
            i <= n,
            config_scan(av, i as int, c@) == config_scan(av, 0, default_config()),
        decreases n - i,
    {
        let a = cs[i].as_slice();
        assert(av[i as int] == a@);
        if eq_lit(a, "-L") || eq_lit(a, "--local-line") {
        } else if eq_lit(a, "-n") || eq_lit(a, "--noclear") {
            c.noclear = true;
        } else if eq_lit(a, "-l") {
            if i + 1 < n {
                c.login = args[i + 1].clone();
                i = i + 1;
            } else {
                i = i + 1;
                assert(config_scan(av, i as int, c@) == Some(c@));
                continue;
            }
        } else if eq_lit(a, "-h") || eq_lit(a, "--help") {
            return GettyStart::Help;
        } else if !starts_with_lit(a, "-") {
            let bc = chars_of(c.baud.as_str());
            let tc0 = chars_of(c.tty.as_str());
            if eq_lit(bc.as_slice(), "9600") && tc0.len() == 0 {
                c.baud = args[i].clone();
            } else if tc0.len() == 0 {
                c.tty = args[i].clone();
            } else {
                c.term = args[i].clone();
            }
        }
        i = i + 1;
    }
    let tc = chars_of(c.tty.as_str());
    if tc.len() == 0 {
        return GettyStart::Usage;
    }
    let path = if starts_with_lit(tc.as_slice(), "/") {
        tc
    } else {
        concat(chars_of("/dev/").as_slice(), tc.as_slice())
    };
    assert(path@ == tty_path_spec(c@.tty));
    if contains_char(path.as_slice(), '\0') {
        return GettyStart::InvalidTtyPath;
    }
    GettyStart::Run { config: c, tty_path: string_of(path.as_slice()) }
}

/// The host name in the greeting, from the buffer `gethostname` filled
/// (`call_ok`: it succeeded): the bytes before the first NUL (none where
/// there is no NUL) as UTF-8 text, else `localhost`.
pub open spec fn host_name_spec(buf: Seq<u8>, call_ok: bool) -> Seq<char> {
    if !call_ok {
        "localhost"@
    } else {
        let len = match buf.index_of_first(0u8) {
            Some(p) => p,
            None => 0,
        };
        if vstd::utf8::valid_utf8(buf.take(len)) {
            vstd::utf8::decode_utf8(buf.take(len))
        } else {
            "localhost"@
        }
    }
}

/// The host name in the greeting (see `host_name_spec`).
pub fn host_name(buf: &[u8], call_ok: bool) -> (r: String)
    ensures
        r@ == host_name_spec(buf@, call_ok),
{
    if !call_ok {
        return to_string("localhost");
    }
    let mut p: usize = 0;
    while p < buf.len() && buf[p] != 0
        invariant
            p <= buf@.len(),
            forall|k: int| 0 <= k < p ==> buf@[k] != 0u8,
        decreases buf@.len() - p,
    {
        p = p + 1;
    }
    let len = if p < buf.len() {
        proof {
            buf@.index_of_first_ensures(0u8);
        }
        p
    } else {
        proof {
            buf@.index_of_first_ensures(0u8);
        }
        0
    };
    let slice = crate::text::slice_bytes(buf, 0, len);
    assert(slice@ =~= buf@.take(len as int));
    match utf8_text(slice.as_slice()) {
        Some(s) => s,
        None => to_string("localhost"),
    }
}

/// The user name typed at the prompt: the line without surrounding
/// whitespace.
pub fn login_user(line: &str) -> (r: String)
    ensures
        r@ == trim(line@),
{
    string_of(trim_chars(chars_of(line).as_slice()).as_slice())
}

} // verus!
