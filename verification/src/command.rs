//! Command parsing: a token list becomes a typed request, one variant per
//! action, validated per-action. Also the surrounding CLI argument scan and
//! the correlation-id builder.

use vstd::prelude::*;
use vstd::string::StringExecFns;
use vstd::string::StrSliceExecFns;
use crate::strutil::spec_starts_with;
use crate::strutil::spec_join_spaces;
use crate::strutil::spec_parse_u64;
use crate::strutil::spec_parse_i32;
use crate::strutil::spec_u64_digits;
use crate::strutil::views_of;
use crate::strutil::opt_str_view;
use crate::strutil::str_eq;
use crate::strutil::str_starts_with;
use crate::strutil::join_spaces;
use crate::strutil::parse_u64;
use crate::strutil::parse_i32;
use crate::strutil::u64_to_string;

verus! {

/// A parsed request: one variant per daemon action, each carrying only its
/// own typed fields.
#[derive(Debug, Clone, PartialEq, Eq)]
pub enum Request {
    Navigate { url: String },
    Click { selector: String },
    Fill { selector: String, value: String },
    TypeText { selector: String, text: String },
    Hover { selector: String },
    Snapshot { interactive: bool, compact: bool, max_depth: Option<i32>, selector: Option<String> },
    Screenshot { path: Option<String> },
    Close,
    GetText { selector: String },
    GetUrl,
    GetTitle,
    Press { key: String },
    WaitTimeout { timeout: u64 },
    WaitSelector { selector: String },
    Back,
    Forward,
    Reload,
    Eval { script: String },
}

/// The mathematical shape of a request: the same variants over character
/// sequences.
pub enum ReqModel {
    Navigate { url: Seq<char> },
    Click { selector: Seq<char> },
    Fill { selector: Seq<char>, value: Seq<char> },
    TypeText { selector: Seq<char>, text: Seq<char> },
    Hover { selector: Seq<char> },
    Snapshot {
        interactive: bool,
        compact: bool,
        max_depth: Option<i32>,
        selector: Option<Seq<char>>,
    },
    Screenshot { path: Option<Seq<char>> },
    Close,
    GetText { selector: Seq<char> },
    GetUrl,
    GetTitle,
    Press { key: Seq<char> },
    WaitTimeout { timeout: u64 },
    WaitSelector { selector: Seq<char> },
    Back,
    Forward,
    Reload,
    Eval { script: Seq<char> },
}

impl View for Request {
    type V = ReqModel;

    open spec fn view(&self) -> ReqModel {
        match self {
            Request::Navigate { url } => ReqModel::Navigate { url: url@ },
            Request::Click { selector } => ReqModel::Click { selector: selector@ },
            Request::Fill { selector, value } => ReqModel::Fill {
                selector: selector@,
                value: value@,
            },
            Request::TypeText { selector, text } => ReqModel::TypeText {
                selector: selector@,
                text: text@,
            },
            Request::Hover { selector } => ReqModel::Hover { selector: selector@ },
            Request::Snapshot { interactive, compact, max_depth, selector } => ReqModel::Snapshot {
                interactive: *interactive,
                compact: *compact,
                max_depth: *max_depth,
                selector: opt_str_view(*selector),
            },
            Request::Screenshot { path } => ReqModel::Screenshot { path: opt_str_view(*path) },
            Request::Close => ReqModel::Close,
            Request::GetText { selector } => ReqModel::GetText { selector: selector@ },
            Request::GetUrl => ReqModel::GetUrl,
            Request::GetTitle => ReqModel::GetTitle,
            Request::Press { key } => ReqModel::Press { key: key@ },
            Request::WaitTimeout { timeout } => ReqModel::WaitTimeout { timeout: *timeout },
            Request::WaitSelector { selector } => ReqModel::WaitSelector { selector: selector@ },
            Request::Back => ReqModel::Back,
            Request::Forward => ReqModel::Forward,
            Request::Reload => ReqModel::Reload,
            Request::Eval { script } => ReqModel::Eval { script: script@ },
        }
    }
}

/// A URL argument without the recognized scheme prefix gets the default
/// secure scheme prepended; one that already has it passes through.
pub open spec fn spec_with_scheme(u: Seq<char>) -> Seq<char> {
    if spec_starts_with(u, "http"@) {
        u
    } else {
        "https://"@ + u
    }
}

/// The flag state after scanning the first `n` snapshot arguments
/// left-to-right; a later occurrence of a flag wins.
pub struct SnapFlags {
    pub interactive: bool,
    pub compact: bool,
    pub max_depth: Option<i32>,
    pub selector: Option<Seq<char>>,
}

pub open spec fn spec_scan_snapshot(rest: Seq<Seq<char>>, n: int) -> SnapFlags
    decreases n,
{
    if n <= 0 {
        SnapFlags { interactive: false, compact: false, max_depth: None, selector: None }
    } else {
        let prev = spec_scan_snapshot(rest, n - 1);
        let a = rest[n - 1];
        if a == "-i"@ || a == "--interactive"@ {
            SnapFlags { interactive: true, ..prev }
        } else if a == "-c"@ || a == "--compact"@ {
            SnapFlags { compact: true, ..prev }
        } else if a == "-d"@ || a == "--depth"@ {
            if n < rest.len() && spec_parse_i32(rest[n]) is Some {
                SnapFlags { max_depth: spec_parse_i32(rest[n]), ..prev }
            } else {
                prev
            }
        } else if a == "-s"@ || a == "--selector"@ {
            if n < rest.len() {
                SnapFlags { selector: Some(rest[n]), ..prev }
            } else {
                prev
            }
        } else {
            prev
        }
    }
}

/// What each token list parses to: the fixed synonym table picks the
/// action, then the action's own arity and shape rule applies. `None` is a
/// parse failure, for an unknown first token as much as for malformed
/// arguments.
pub open spec fn spec_parse(args: Seq<Seq<char>>) -> Option<ReqModel> {
    if args.len() == 0 {
        None
    } else {
        let cmd = args[0];
        let rest = args.skip(1);
        if cmd == "open"@ || cmd == "goto"@ || cmd == "navigate"@ {
            if rest.len() >= 1 {
                Some(ReqModel::Navigate { url: spec_with_scheme(rest[0]) })
            } else {
                None
            }
        } else if cmd == "click"@ {
            if rest.len() >= 1 {
                Some(ReqModel::Click { selector: rest[0] })
            } else {
                None
            }
        } else if cmd == "fill"@ {
            if rest.len() >= 1 {
                Some(
                    ReqModel::Fill { selector: rest[0], value: spec_join_spaces(rest.skip(1)) },
                )
            } else {
                None
            }
        } else if cmd == "type"@ {
            if rest.len() >= 1 {
                Some(
                    ReqModel::TypeText { selector: rest[0], text: spec_join_spaces(rest.skip(1)) },
                )
            } else {
                None
            }
        } else if cmd == "hover"@ {
            if rest.len() >= 1 {
                Some(ReqModel::Hover { selector: rest[0] })
            } else {
                None
            }
        } else if cmd == "snapshot"@ {
            let f = spec_scan_snapshot(rest, rest.len() as int);
            Some(
                ReqModel::Snapshot {
                    interactive: f.interactive,
                    compact: f.compact,
                    max_depth: f.max_depth,
                    selector: f.selector,
                },
            )
        } else if cmd == "screenshot"@ {
            Some(
                ReqModel::Screenshot {
                    path: if rest.len() >= 1 {
                        Some(rest[0])
                    } else {
                        None
                    },
                },
            )
        } else if cmd == "close"@ || cmd == "quit"@ || cmd == "exit"@ {
            Some(ReqModel::Close)
        } else if cmd == "get"@ {
            if rest.len() == 0 {
                None
            } else if rest[0] == "text"@ {
                if rest.len() >= 2 {
                    Some(ReqModel::GetText { selector: rest[1] })
                } else {
                    None
                }
            } else if rest[0] == "url"@ {
                Some(ReqModel::GetUrl)
            } else if rest[0] == "title"@ {
                Some(ReqModel::GetTitle)
            } else {
                None
            }
        } else if cmd == "press"@ {
            if rest.len() >= 1 {
                Some(ReqModel::Press { key: rest[0] })
            } else {
                None
            }
        } else if cmd == "wait"@ {
            if rest.len() == 0 {
                None
            } else {
                match spec_parse_u64(rest[0]) {
                    Some(t) => Some(ReqModel::WaitTimeout { timeout: t }),
                    None => Some(ReqModel::WaitSelector { selector: rest[0] }),
                }
            }
        } else if cmd == "back"@ {
            Some(ReqModel::Back)
        } else if cmd == "forward"@ {
            Some(ReqModel::Forward)
        } else if cmd == "reload"@ {
            Some(ReqModel::Reload)
        } else if cmd == "eval"@ {
            Some(ReqModel::Eval { script: spec_join_spaces(rest) })
        } else {
            None
        }
    }
}

/// Parses a token list into a request, exactly as `spec_parse` says: `None`
/// both for an unknown first token and for malformed arguments of a known
/// one.
pub fn parse_command(args: &Vec<String>) -> (r: Option<Request>)
    ensures
        match r {
            Some(req) => spec_parse(views_of(args@)) == Some(req@),
            None => spec_parse(views_of(args@)) is None,
        },
{
    let ghost va = views_of(args@);
    let ghost rest = va.skip(1);
    if args.len() == 0 {
        return None;
    }
    let n = args.len();
    let cmd = &args[0];
    proof {
        assert(va[0] == args@[0]@);
    }
    if str_eq(cmd.as_str(), "open") || str_eq(cmd.as_str(), "goto") || str_eq(
        cmd.as_str(),
        "navigate",
    ) {
        if n >= 2 {
            proof {
                assert(rest[0] == args@[1]@);
            }
            let url0 = &args[1];
            let url = if str_starts_with(url0.as_str(), "http") {
                url0.clone()
            } else {
                let mut u = String::from_str("https://");
                u.append(url0.as_str());
                u
            };
            Some(Request::Navigate { url })
        } else {
            None
        }
    } else if str_eq(cmd.as_str(), "click") {
        if n >= 2 {
            proof {
                assert(rest[0] == args@[1]@);
            }
            Some(Request::Click { selector: args[1].clone() })
        } else {
            None
        }
    } else if str_eq(cmd.as_str(), "fill") {
        if n >= 2 {
            proof {
                assert(rest[0] == args@[1]@);
                assert(rest.skip(1) =~= va.skip(2));
            }
            let value = join_spaces(args, 2);
            Some(Request::Fill { selector: args[1].clone(), value })
        } else {
            None
        }
    } else if str_eq(cmd.as_str(), "type") {
        if n >= 2 {
            proof {
                assert(rest[0] == args@[1]@);
                assert(rest.skip(1) =~= va.skip(2));
            }
            let text = join_spaces(args, 2);
            Some(Request::TypeText { selector: args[1].clone(), text })
        } else {
            None
        }
    } else if str_eq(cmd.as_str(), "hover") {
        if n >= 2 {
            proof {
                assert(rest[0] == args@[1]@);
            }
            Some(Request::Hover { selector: args[1].clone() })
        } else {
            None
        }
    } else if str_eq(cmd.as_str(), "snapshot") {
        let mut interactive = false;
        let mut compact = false;
        let mut max_depth: Option<i32> = None;
        let mut selector: Option<String> = None;
        let mut i: usize = 0;
        while i < n - 1
            invariant
                n == args@.len(),
                1 <= n,
                i <= n - 1,
                va == views_of(args@),
                rest == va.skip(1),
                rest.len() == n - 1,
                ({
                    let f = spec_scan_snapshot(rest, i as int);
                    interactive == f.interactive && compact == f.compact && max_depth
                        == f.max_depth && opt_str_view(selector) == f.selector
                }),
            decreases n - 1 - i,
        {
            let a = &args[i + 1];
            proof {
                assert(rest[i as int] == args@[i + 1]@);
            }
            if str_eq(a.as_str(), "-i") || str_eq(a.as_str(), "--interactive") {
                interactive = true;
            } else if str_eq(a.as_str(), "-c") || str_eq(a.as_str(), "--compact") {
                compact = true;
            } else if str_eq(a.as_str(), "-d") || str_eq(a.as_str(), "--depth") {
                if i + 2 < n {
                    proof {
                        assert(rest[i + 1] == args@[i + 2]@);
                    }
                    match parse_i32(args[i + 2].as_str()) {
                        Some(d) => {
                            max_depth = Some(d);
                        },
                        None => {},
                    }
                }
            } else if str_eq(a.as_str(), "-s") || str_eq(a.as_str(), "--selector") {
                if i + 2 < n {
                    proof {
                        assert(rest[i + 1] == args@[i + 2]@);
                    }
                    selector = Some(args[i + 2].clone());
                }
            }
            i += 1;
        }
        Some(Request::Snapshot { interactive, compact, max_depth, selector })
    } else if str_eq(cmd.as_str(), "screenshot") {
        if n >= 2 {
            proof {
                assert(rest[0] == args@[1]@);
            }
            Some(Request::Screenshot { path: Some(args[1].clone()) })
        } else {
            Some(Request::Screenshot { path: None })
        }
    } else if str_eq(cmd.as_str(), "close") || str_eq(cmd.as_str(), "quit") || str_eq(
        cmd.as_str(),
        "exit",
    ) {
        Some(Request::Close)
    } else if str_eq(cmd.as_str(), "get") {
        if n < 2 {
            None
        } else {
            proof {
                assert(rest[0] == args@[1]@);
            }
            let sub = &args[1];
            if str_eq(sub.as_str(), "text") {
                if n >= 3 {
                    proof {
                        assert(rest[1] == args@[2]@);
                    }
                    Some(Request::GetText { selector: args[2].clone() })
                } else {
                    None
                }
            } else if str_eq(sub.as_str(), "url") {
                Some(Request::GetUrl)
            } else if str_eq(sub.as_str(), "title") {
                Some(Request::GetTitle)
            } else {
                None
            }
        }
    } else if str_eq(cmd.as_str(), "press") {
        if n >= 2 {
            proof {
                assert(rest[0] == args@[1]@);
            }
            Some(Request::Press { key: args[1].clone() })
        } else {
            None
        }
    } else if str_eq(cmd.as_str(), "wait") {
        if n < 2 {
            None
        } else {
            proof {
                assert(rest[0] == args@[1]@);
            }
            match parse_u64(args[1].as_str()) {
                Some(t) => Some(Request::WaitTimeout { timeout: t }),
                None => Some(Request::WaitSelector { selector: args[1].clone() }),
            }
        }
    } else if str_eq(cmd.as_str(), "back") {
        Some(Request::Back)
    } else if str_eq(cmd.as_str(), "forward") {
        Some(Request::Forward)
    } else if str_eq(cmd.as_str(), "reload") {
        Some(Request::Reload)
    } else if str_eq(cmd.as_str(), "eval") {
        proof {
            assert(rest =~= va.skip(1));
        }
        let script = join_spaces(args, 1);
        Some(Request::Eval { script })
    } else {
        None
    }
}

/// A navigate command prepends the default secure scheme exactly when the
/// URL argument lacks the recognized scheme prefix; otherwise the argument
/// passes through unchanged.
pub proof fn lemma_navigate_scheme(args: Seq<Seq<char>>)
    requires
        args.len() >= 2,
        args[0] == "open"@ || args[0] == "goto"@ || args[0] == "navigate"@,
    ensures
        spec_parse(args) == Some(
            ReqModel::Navigate {
                url: if spec_starts_with(args[1], "http"@) {
                    args[1]
                } else {
                    "https://"@ + args[1]
                },
            },
        ),
{
    assert(args.skip(1)[0] == args[1]);
}

/// A first token outside the synonym table always yields a parse failure,
/// whatever follows it.
pub proof fn lemma_unknown_command(args: Seq<Seq<char>>)
    requires
        args.len() >= 1,
        args[0] != "open"@,
        args[0] != "goto"@,
        args[0] != "navigate"@,
        args[0] != "click"@,
        args[0] != "fill"@,
        args[0] != "type"@,
        args[0] != "hover"@,
        args[0] != "snapshot"@,
        args[0] != "screenshot"@,
        args[0] != "close"@,
        args[0] != "quit"@,
        args[0] != "exit"@,
        args[0] != "get"@,
        args[0] != "press"@,
        args[0] != "wait"@,
        args[0] != "back"@,
        args[0] != "forward"@,
        args[0] != "reload"@,
        args[0] != "eval"@,
    ensures
        spec_parse(args) is None,
{
}

/// The invocation after the flag scan: the rendering mode, whether usage
/// was asked for, and the tokens left for the command parser.
pub struct CliArgs {
    pub json_mode: bool,
    pub help: bool,
    pub tokens: Vec<String>,
}

/// The tokens that survive flag stripping: every token beginning with `--`
/// is removed, order kept.
pub open spec fn spec_strip_flags(s: Seq<Seq<char>>) -> Seq<Seq<char>>
    decreases s.len(),
{
    if s.len() == 0 {
        Seq::empty()
    } else {
        let p = spec_strip_flags(s.drop_last());
        if spec_starts_with(s.last(), "--"@) {
            p
        } else {
            p.push(s.last())
        }
    }
}

pub open spec fn spec_has_token(s: Seq<Seq<char>>, w: Seq<char>) -> bool {
    exists|i: int| 0 <= i < s.len() && s[i] == w
}

/// Scans the raw argument list: `--json` selects machine rendering, every
/// other `--`-prefixed token is stripped before command parsing, and usage
/// is asked for when nothing is left or `--help`/`-h` occurs.
pub fn scan_args(args: &Vec<String>) -> (r: CliArgs)
    ensures
        views_of(r.tokens@) == spec_strip_flags(views_of(args@)),
        r.json_mode == spec_has_token(views_of(args@), "--json"@),
        r.help == (spec_strip_flags(views_of(args@)).len() == 0 || spec_has_token(
            views_of(args@),
            "--help"@,
        ) || spec_has_token(views_of(args@), "-h"@)),
{
    let ghost va = views_of(args@);
    let mut tokens: Vec<String> = Vec::new();
    let mut json_mode = false;
    let mut help_flag = false;
    let mut i: usize = 0;
    while i < args.len()
        invariant
            i <= args@.len(),
            va == views_of(args@),
            views_of(tokens@) == spec_strip_flags(va.take(i as int)),
            json_mode == spec_has_token(va.take(i as int), "--json"@),
            help_flag == (spec_has_token(va.take(i as int), "--help"@) || spec_has_token(
                va.take(i as int),
                "-h"@,
            )),
        decreases args@.len() - i,
    {
        let a = &args[i];
        proof {
            assert(va[i as int] == args@[i as int]@);
        }
        let ghost t0 = va.take(i as int);
        let ghost t1 = va.take(i + 1);
        proof {
            assert(t1.drop_last() =~= t0);
            assert(t1.last() == va[i as int]);
        }
        if str_eq(a.as_str(), "--json") {
            json_mode = true;
            proof {
                assert(t1[i as int] == va[i as int]);
            }
        } else {
            proof {
                if spec_has_token(t1, "--json"@) && !spec_has_token(t0, "--json"@) {
                    let j = choose|j: int| 0 <= j < t1.len() && t1[j] == "--json"@;
                    assert(t0[j] == t1[j]);
                }
            }
        }
        if str_eq(a.as_str(), "--help") || str_eq(a.as_str(), "-h") {
            help_flag = true;
            proof {
                assert(t1[i as int] == va[i as int]);
            }
        } else {
            proof {
                if spec_has_token(t1, "--help"@) && !spec_has_token(t0, "--help"@) {
                    let j = choose|j: int| 0 <= j < t1.len() && t1[j] == "--help"@;
                    assert(t0[j] == t1[j]);
                }
                if spec_has_token(t1, "-h"@) && !spec_has_token(t0, "-h"@) {
                    let j = choose|j: int| 0 <= j < t1.len() && t1[j] == "-h"@;
                    assert(t0[j] == t1[j]);
                }
            }
        }
        if !str_starts_with(a.as_str(), "--") {
            tokens.push(a.clone());
            proof {
                assert(views_of(tokens@) =~= spec_strip_flags(t0).push(va[i as int]));
            }
        }
        i += 1;
    }
    proof {
        assert(va.take(args@.len() as int) =~= va);
    }
    let help = tokens.len() == 0 || help_flag;
    CliArgs { json_mode, help, tokens }
}

/// The correlation id: the letter `r` followed by the decimal digits of a
/// sub-second clock sample reduced modulo one million. Human-debugging
/// only; the id is not required to be globally unique.
pub fn gen_id(micros_since_epoch: u64) -> (r: String)
    ensures
        r@ == seq!['r'] + spec_u64_digits((micros_since_epoch % 1000000) as nat),
{
    let mut r = String::from_str("r");
    let digits = u64_to_string(micros_since_epoch % 1000000);
    r.append(digits.as_str());
    proof {
        reveal_strlit("r");
        assert(r@ =~= seq!['r'] + spec_u64_digits((micros_since_epoch % 1000000) as nat));
    }
    r
}

} // verus!
