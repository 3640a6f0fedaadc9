//! The wire protocol: one request is one self-contained JSON text line,
//! `{"id":...,"action":...,<action fields>}`, newline-terminated. This
//! module defines the encoding, a decoder for the same schema, and the
//! round-trip proof tying the two together.

use vstd::prelude::*;
use vstd::string::StringExecFns;
use vstd::string::StrSliceExecFns;
use crate::command::Request;
use crate::command::ReqModel;
use crate::strutil::push_char;
use crate::strutil::u64_to_string;
use crate::strutil::i32_to_string;
use crate::strutil::spec_u64_digits;
use crate::strutil::spec_i32_str;
use crate::strutil::is_digit;
use crate::strutil::all_digits;
use crate::strutil::spec_digits_val;
use crate::strutil::lemma_digits_val_prefix_le;
use crate::strutil::spec_starts_with;
use crate::strutil::str_eq;
use crate::strutil::lemma_u64_digits_ok;

verus! {

/// How one character is written inside a JSON string: quotes, backslashes,
/// newlines, tabs and carriage returns get their two-character escapes;
/// everything else stands for itself.
pub open spec fn spec_escape_char(c: char) -> Seq<char> {
    if c == '"' {
        seq!['\\', '"']
    } else if c == '\\' {
        seq!['\\', '\\']
    } else if c == '\n' {
        seq!['\\', 'n']
    } else if c == '\t' {
        seq!['\\', 't']
    } else if c == '\r' {
        seq!['\\', 'r']
    } else {
        seq![c]
    }
}

/// A string's characters escaped one after the other.
pub open spec fn spec_escape(s: Seq<char>) -> Seq<char>
    decreases s.len(),
{
    if s.len() == 0 {
        Seq::empty()
    } else {
        spec_escape_char(s[0]) + spec_escape(s.skip(1))
    }
}

pub proof fn lemma_escape_append(a: Seq<char>, b: Seq<char>)
    ensures
        spec_escape(a + b) == spec_escape(a) + spec_escape(b),
    decreases a.len(),
{
    if a.len() == 0 {
        assert(a + b =~= b);
        assert(spec_escape(a) + spec_escape(b) =~= spec_escape(b));
    } else {
        lemma_escape_append(a.skip(1), b);
        assert((a + b).skip(1) =~= a.skip(1) + b);
        assert((a + b)[0] == a[0]);
        assert(spec_escape(a + b) == spec_escape_char(a[0]) + (spec_escape(a.skip(1)) + spec_escape(
            b,
        )));
        assert(spec_escape_char(a[0]) + (spec_escape(a.skip(1)) + spec_escape(b)) =~= (
        spec_escape_char(a[0]) + spec_escape(a.skip(1))) + spec_escape(b));
    }
}

/// True when no character of `s` is a raw newline: such a sequence fits
/// inside one newline-delimited frame.
pub open spec fn line_safe(s: Seq<char>) -> bool {
    forall|i: int| 0 <= i < s.len() ==> s[i] != '\n'
}

proof fn lemma_line_safe_concat(a: Seq<char>, b: Seq<char>)
    requires
        line_safe(a),
        line_safe(b),
    ensures
        line_safe(a + b),
{
    assert forall|i: int| 0 <= i < (a + b).len() implies (a + b)[i] != '\n' by {
        if i < a.len() {
            assert((a + b)[i] == a[i]);
        } else {
            assert((a + b)[i] == b[i - a.len()]);
        }
    }
}

/// The escaped form never contains a raw newline: the newline itself is
/// escaped, and every escape is written with visible characters.
proof fn lemma_escape_line_safe(s: Seq<char>)
    ensures
        line_safe(spec_escape(s)),
    decreases s.len(),
{
    if s.len() > 0 {
        lemma_escape_line_safe(s.skip(1));
        let e = spec_escape(s);
        let h = spec_escape_char(s[0]);
        assert forall|i: int| 0 <= i < e.len() implies e[i] != '\n' by {
            if i < h.len() {
                assert(e[i] == h[i]);
            } else {
                assert(e[i] == spec_escape(s.skip(1))[i - h.len()]);
            }
        }
    }
}

proof fn lemma_digits_line_safe(n: nat)
    ensures
        line_safe(spec_u64_digits(n)),
{
    lemma_u64_digits_ok(n);
    let d = spec_u64_digits(n);
    assert forall|i: int| 0 <= i < d.len() implies d[i] != '\n' by {
        assert(is_digit(d[i]));
    }
}

proof fn lemma_i32_str_line_safe(v: int)
    ensures
        line_safe(spec_i32_str(v)),
{
    if v < 0 {
        lemma_digits_line_safe((-v) as nat);
        lemma_line_safe_concat(seq!['-'], spec_u64_digits((-v) as nat));
    } else {
        lemma_digits_line_safe(v as nat);
    }
}

/// Appends the escaped form of `s` to `out`.
fn escape_str_into(out: &mut String, s: &str)
    ensures
        final(out)@ == old(out)@ + spec_escape(s@),
{
    let len = s.unicode_len();
    let mut i: usize = 0;
    proof {
        assert(old(out)@ + spec_escape(s@.take(0)) =~= old(out)@);
    }
    while i < len
        invariant
            i <= len,
            len == s@.len(),
            out@ == old(out)@ + spec_escape(s@.take(i as int)),
        decreases len - i,
    {
        let c = s.get_char(i);
        if c == '"' {
            push_char(out, '\\');
            push_char(out, '"');
        } else if c == '\\' {
            push_char(out, '\\');
            push_char(out, '\\');
        } else if c == '\n' {
            push_char(out, '\\');
            push_char(out, 'n');
        } else if c == '\t' {
            push_char(out, '\\');
            push_char(out, 't');
        } else if c == '\r' {
            push_char(out, '\\');
            push_char(out, 'r');
        } else {
            push_char(out, c);
        }
        proof {
            reveal_with_fuel(spec_escape, 2);
            let a = s@.take(i as int);
            let b = s@.take(i + 1);
            assert(b =~= a + seq![s@[i as int]]);
            lemma_escape_append(a, seq![s@[i as int]]);
            let one = seq![s@[i as int]];
            assert(one.skip(1) =~= Seq::<char>::empty());
            assert(spec_escape(one) =~= spec_escape_char(s@[i as int]));
            assert(out@ =~= old(out)@ + spec_escape(b));
        }
        i += 1;
    }
    proof {
        assert(s@.take(len as int) =~= s@);
    }
}

/// The action word each request variant is sent under.
pub open spec fn spec_action_name(m: ReqModel) -> Seq<char> {
    match m {
        ReqModel::Navigate { .. } => "navigate"@,
        ReqModel::Click { .. } => "click"@,
        ReqModel::Fill { .. } => "fill"@,
        ReqModel::TypeText { .. } => "type"@,
        ReqModel::Hover { .. } => "hover"@,
        ReqModel::Snapshot { .. } => "snapshot"@,
        ReqModel::Screenshot { .. } => "screenshot"@,
        ReqModel::Close => "close"@,
        ReqModel::GetText { .. } => "gettext"@,
        ReqModel::GetUrl => "url"@,
        ReqModel::GetTitle => "title"@,
        ReqModel::Press { .. } => "press"@,
        ReqModel::WaitTimeout { .. } => "wait"@,
        ReqModel::WaitSelector { .. } => "wait"@,
        ReqModel::Back => "back"@,
        ReqModel::Forward => "forward"@,
        ReqModel::Reload => "reload"@,
        ReqModel::Eval { .. } => "evaluate"@,
    }
}

/// The action-specific fields, as they follow the action in the encoded
/// object: a flat bag merged at the top level, no params wrapper.
pub open spec fn spec_encode_body(m: ReqModel) -> Seq<char> {
    match m {
        ReqModel::Navigate { url } => ",\"url\":\""@ + spec_escape(url) + seq!['"'],
        ReqModel::Click { selector } => ",\"selector\":\""@ + spec_escape(selector) + seq!['"'],
        ReqModel::Fill { selector, value } => ",\"selector\":\""@ + spec_escape(selector)
            + seq!['"'] + ",\"value\":\""@ + spec_escape(value) + seq!['"'],
        ReqModel::TypeText { selector, text } => ",\"selector\":\""@ + spec_escape(selector)
            + seq!['"'] + ",\"text\":\""@ + spec_escape(text) + seq!['"'],
        ReqModel::Hover { selector } => ",\"selector\":\""@ + spec_escape(selector) + seq!['"'],
        ReqModel::Snapshot { interactive, compact, max_depth, selector } => (
        if interactive {
            ",\"interactive\":true"@
        } else {
            Seq::empty()
        }) + (if compact {
            ",\"compact\":true"@
        } else {
            Seq::empty()
        }) + (match max_depth {
            Some(d) => ",\"maxDepth\":"@ + spec_i32_str(d as int),
            None => Seq::empty(),
        }) + (match selector {
            Some(s) => ",\"selector\":\""@ + spec_escape(s) + seq!['"'],
            None => Seq::empty(),
        }),
        ReqModel::Screenshot { path } => match path {
            Some(p) => ",\"path\":\""@ + spec_escape(p) + seq!['"'],
            None => ",\"path\":null"@,
        },
        ReqModel::Close => Seq::empty(),
        ReqModel::GetText { selector } => ",\"selector\":\""@ + spec_escape(selector) + seq!['"'],
        ReqModel::GetUrl => Seq::empty(),
        ReqModel::GetTitle => Seq::empty(),
        ReqModel::Press { key } => ",\"key\":\""@ + spec_escape(key) + seq!['"'],
        ReqModel::WaitTimeout { timeout } => ",\"timeout\":"@ + spec_u64_digits(timeout as nat),
        ReqModel::WaitSelector { selector } => ",\"selector\":\""@ + spec_escape(selector)
            + seq!['"'],
        ReqModel::Back => Seq::empty(),
        ReqModel::Forward => Seq::empty(),
        ReqModel::Reload => Seq::empty(),
        ReqModel::Eval { script } => ",\"script\":\""@ + spec_escape(script) + seq!['"'],
    }
}

/// One encoded request: id first, then the action, then the action's own
/// fields, one flat object.
pub open spec fn spec_encode(id: Seq<char>, m: ReqModel) -> Seq<char> {
    "{\"id\":\""@ + spec_escape(id) + "\",\"action\":\""@ + spec_escape(spec_action_name(m))
        + seq!['"'] + spec_encode_body(m) + seq!['}']
}

/// Appends an escaped string field: the key literal (which carries the
/// opening quote), the escaped value, the closing quote.
fn append_str_field(out: &mut String, key: &str, v: &str)
    ensures
        final(out)@ == old(out)@ + key@ + spec_escape(v@) + seq!['"'],
{
    out.append(key);
    escape_str_into(out, v);
    out.append("\"");
    proof {
        reveal_strlit("\"");
        assert(out@ =~= old(out)@ + key@ + spec_escape(v@) + seq!['"']);
    }
}

/// Appends the escaped action word and its closing quote.
fn append_action(out: &mut String, name: &str)
    ensures
        final(out)@ == old(out)@ + spec_escape(name@) + seq!['"'],
{
    escape_str_into(out, name);
    out.append("\"");
    proof {
        reveal_strlit("\"");
        assert(out@ =~= old(out)@ + spec_escape(name@) + seq!['"']);
    }
}

/// Encodes a request under the given correlation id.
#[verifier::rlimit(100)]
pub fn encode_request(id: &String, req: &Request) -> (r: String)
    ensures
        r@ == spec_encode(id@, req@),
{
    let mut out = String::from_str("{\"id\":\"");
    escape_str_into(&mut out, id.as_str());
    out.append("\",\"action\":\"");
    let ghost head = "{\"id\":\""@ + spec_escape(id@) + "\",\"action\":\""@;
    proof {
        assert(out@ =~= head);
    }
    match req {
        Request::Navigate { url } => {
            append_action(&mut out, "navigate");
            append_str_field(&mut out, ",\"url\":\"", url.as_str());
            proof {
                assert(out@ =~= head + spec_escape(spec_action_name(req@)) + seq!['"']
                    + spec_encode_body(req@));
            }
        },
        Request::Click { selector } => {
            append_action(&mut out, "click");
            append_str_field(&mut out, ",\"selector\":\"", selector.as_str());
            proof {
                assert(out@ =~= head + spec_escape(spec_action_name(req@)) + seq!['"']
                    + spec_encode_body(req@));
            }
        },
        Request::Fill { selector, value } => {
            append_action(&mut out, "fill");
            append_str_field(&mut out, ",\"selector\":\"", selector.as_str());
            append_str_field(&mut out, ",\"value\":\"", value.as_str());
            proof {
                assert(out@ =~= head + spec_escape(spec_action_name(req@)) + seq!['"']
                    + spec_encode_body(req@));
            }
        },
        Request::TypeText { selector, text } => {
            append_action(&mut out, "type");
            append_str_field(&mut out, ",\"selector\":\"", selector.as_str());
            append_str_field(&mut out, ",\"text\":\"", text.as_str());
            proof {
                assert(out@ =~= head + spec_escape(spec_action_name(req@)) + seq!['"']
                    + spec_encode_body(req@));
            }
        },
        Request::Hover { selector } => {
            append_action(&mut out, "hover");
            append_str_field(&mut out, ",\"selector\":\"", selector.as_str());
            proof {
                assert(out@ =~= head + spec_escape(spec_action_name(req@)) + seq!['"']
                    + spec_encode_body(req@));
            }
        },
        Request::Snapshot { interactive, compact, max_depth, selector } => {
            append_action(&mut out, "snapshot");
            let ghost mid0 = out@;
            if *interactive {
                out.append(",\"interactive\":true");
            }
            proof {
                assert(out@ =~= mid0 + (if *interactive {
                    ",\"interactive\":true"@
                } else {
                    Seq::<char>::empty()
                }));
            }
            let ghost mid1 = out@;
            if *compact {
                out.append(",\"compact\":true");
            }
            proof {
                assert(out@ =~= mid1 + (if *compact {
                    ",\"compact\":true"@
                } else {
                    Seq::<char>::empty()
                }));
            }
            let ghost mid2 = out@;
            match max_depth {
                Some(d) => {
                    out.append(",\"maxDepth\":");
                    let ds = i32_to_string(*d);
                    out.append(ds.as_str());
                },
                None => {},
            }
            proof {
                assert(out@ =~= mid2 + (match *max_depth {
                    Some(d) => ",\"maxDepth\":"@ + spec_i32_str(d as int),
                    None => Seq::<char>::empty(),
                }));
            }
            let ghost mid3 = out@;
            match selector {
                Some(s) => {
                    append_str_field(&mut out, ",\"selector\":\"", s.as_str());
                },
                None => {},
            }
            proof {
                assert(out@ =~= mid3 + (match *selector {
                    Some(s) => ",\"selector\":\""@ + spec_escape(s@) + seq!['"'],
                    None => Seq::<char>::empty(),
                }));
                assert(out@ =~= head + spec_escape(spec_action_name(req@)) + seq!['"']
                    + spec_encode_body(req@));
            }
        },
        Request::Screenshot { path } => {
            append_action(&mut out, "screenshot");
            match path {
                Some(p) => {
                    append_str_field(&mut out, ",\"path\":\"", p.as_str());
                },
                None => {
                    out.append(",\"path\":null");
                },
            }
            proof {
                assert(out@ =~= head + spec_escape(spec_action_name(req@)) + seq!['"']
                    + spec_encode_body(req@));
            }
        },
        Request::Close => {
            append_action(&mut out, "close");
            proof {
                assert(out@ =~= head + spec_escape(spec_action_name(req@)) + seq!['"']
                    + spec_encode_body(req@));
            }
        },
        Request::GetText { selector } => {
            append_action(&mut out, "gettext");
            append_str_field(&mut out, ",\"selector\":\"", selector.as_str());
            proof {
                assert(out@ =~= head + spec_escape(spec_action_name(req@)) + seq!['"']
                    + spec_encode_body(req@));
            }
        },
        Request::GetUrl => {
            append_action(&mut out, "url");
            proof {
                assert(out@ =~= head + spec_escape(spec_action_name(req@)) + seq!['"']
                    + spec_encode_body(req@));
            }
        },
        Request::GetTitle => {
            append_action(&mut out, "title");
            proof {
                assert(out@ =~= head + spec_escape(spec_action_name(req@)) + seq!['"']
                    + spec_encode_body(req@));
            }
        },
        Request::Press { key } => {
            append_action(&mut out, "press");
            append_str_field(&mut out, ",\"key\":\"", key.as_str());
            proof {
                assert(out@ =~= head + spec_escape(spec_action_name(req@)) + seq!['"']
                    + spec_encode_body(req@));
            }
        },
        Request::WaitTimeout { timeout } => {
            append_action(&mut out, "wait");
            out.append(",\"timeout\":");
            let ds = u64_to_string(*timeout);
            out.append(ds.as_str());
            proof {
                assert(out@ =~= head + spec_escape(spec_action_name(req@)) + seq!['"']
                    + spec_encode_body(req@));
            }
        },
        Request::WaitSelector { selector } => {
            append_action(&mut out, "wait");
            append_str_field(&mut out, ",\"selector\":\"", selector.as_str());
            proof {
                assert(out@ =~= head + spec_escape(spec_action_name(req@)) + seq!['"']
                    + spec_encode_body(req@));
            }
        },
        Request::Back => {
            append_action(&mut out, "back");
            proof {
                assert(out@ =~= head + spec_escape(spec_action_name(req@)) + seq!['"']
                    + spec_encode_body(req@));
            }
        },
        Request::Forward => {
            append_action(&mut out, "forward");
            proof {
                assert(out@ =~= head + spec_escape(spec_action_name(req@)) + seq!['"']
                    + spec_encode_body(req@));
            }
        },
        Request::Reload => {
            append_action(&mut out, "reload");
            proof {
                assert(out@ =~= head + spec_escape(spec_action_name(req@)) + seq!['"']
                    + spec_encode_body(req@));
            }
        },
        Request::Eval { script } => {
            append_action(&mut out, "evaluate");
            append_str_field(&mut out, ",\"script\":\"", script.as_str());
            proof {
                assert(out@ =~= head + spec_escape(spec_action_name(req@)) + seq!['"']
                    + spec_encode_body(req@));
            }
        },
    }
    out.append("}");
    proof {
        reveal_strlit("}");
        assert(out@ =~= spec_encode(id@, req@));
    }
    out
}

/// What one character after a backslash decodes to.
pub open spec fn spec_unescape_code(c: char) -> Option<char> {
    if c == '"' {
        Some('"')
    } else if c == '\\' {
        Some('\\')
    } else if c == 'n' {
        Some('\n')
    } else if c == 't' {
        Some('\t')
    } else if c == 'r' {
        Some('\r')
    } else {
        None
    }
}

/// Scans a JSON string body up to and including its closing quote,
/// decoding escapes: the decoded characters and the count consumed.
pub open spec fn spec_scan_string(t: Seq<char>) -> Option<(Seq<char>, int)>
    decreases t.len(),
{
    if t.len() == 0 {
        None
    } else if t[0] == '"' {
        Some((Seq::empty(), 1))
    } else if t[0] == '\\' {
        if t.len() >= 2 {
            match spec_unescape_code(t[1]) {
                Some(u) => match spec_scan_string(t.skip(2)) {
                    Some((v, k)) => Some((seq![u] + v, k + 2)),
                    None => None,
                },
                None => None,
            }
        } else {
            None
        }
    } else {
        match spec_scan_string(t.skip(1)) {
            Some((v, k)) => Some((seq![t[0]] + v, k + 1)),
            None => None,
        }
    }
}

/// How many decimal digits stand at the front of `t`.
pub open spec fn spec_digit_run(t: Seq<char>) -> int
    decreases t.len(),
{
    if t.len() > 0 && is_digit(t[0]) {
        1 + spec_digit_run(t.skip(1))
    } else {
        0
    }
}

/// Scans the maximal leading digit run as a decimal number: the value and
/// the count consumed; an empty run or an overflowing value scans to
/// nothing.
pub open spec fn spec_scan_u64(t: Seq<char>) -> Option<(u64, int)> {
    let k = spec_digit_run(t);
    if k > 0 && spec_digits_val(t.take(k)) <= u64::MAX {
        Some((spec_digits_val(t.take(k)) as u64, k))
    } else {
        None
    }
}

/// Scans an optionally negated decimal number that fits in an `i32`.
pub open spec fn spec_scan_i32(t: Seq<char>) -> Option<(i32, int)> {
    if t.len() > 0 && t[0] == '-' {
        match spec_scan_u64(t.skip(1)) {
            Some((v, k)) => if v <= 0x8000_0000 {
                Some(((-(v as int)) as i32, k + 1))
            } else {
                None
            },
            None => None,
        }
    } else {
        match spec_scan_u64(t) {
            Some((v, k)) => if v <= 0x7fff_ffff {
                Some((v as i32, k))
            } else {
                None
            },
            None => None,
        }
    }
}

proof fn lemma_digit_run_le_len(t: Seq<char>)
    ensures
        0 <= spec_digit_run(t) <= t.len(),
    decreases t.len(),
{
    if t.len() > 0 && is_digit(t[0]) {
        lemma_digit_run_le_len(t.skip(1));
    }
}

proof fn lemma_digit_run_exact(t: Seq<char>, m: int)
    requires
        0 <= m <= t.len(),
        all_digits(t.take(m)),
        m == t.len() || !is_digit(t[m]),
    ensures
        spec_digit_run(t) == m,
    decreases m,
{
    if m == 0 {
    } else {
        assert(is_digit(t[0])) by {
            assert(t.take(m)[0] == t[0]);
        }
        let u = t.skip(1);
        assert(u.take(m - 1) =~= t.take(m).skip(1));
        assert forall|j: int| 0 <= j < m - 1 implies is_digit(#[trigger] u.take(m - 1)[j]) by {
            assert(u.take(m - 1)[j] == t.take(m)[j + 1]);
        }
        if m - 1 < u.len() {
            assert(u[m - 1] == t[m]);
        }
        lemma_digit_run_exact(u, m - 1);
    }
}

proof fn lemma_digit_run_lower(t: Seq<char>, m: int)
    requires
        0 <= m <= t.len(),
        all_digits(t.take(m)),
    ensures
        spec_digit_run(t) >= m,
    decreases m,
{
    lemma_digit_run_le_len(t);
    if m > 0 {
        assert(is_digit(t[0])) by {
            assert(t.take(m)[0] == t[0]);
        }
        let u = t.skip(1);
        assert forall|j: int| 0 <= j < m - 1 implies is_digit(#[trigger] u.take(m - 1)[j]) by {
            assert(u.take(m - 1)[j] == t.take(m)[j + 1]);
        }
        lemma_digit_run_lower(u, m - 1);
    }
}

/// Whether `lit` stands at position `pos` of `s`.
fn starts_with_at(s: &str, pos: usize, lit: &str) -> (r: bool)
    requires
        pos <= s@.len(),
    ensures
        r == spec_starts_with(s@.skip(pos as int), lit@),
        s@.len() <= usize::MAX,
        r ==> pos as int + lit@.len() <= s@.len(),
{
    let slen = s.unicode_len();
    let llen = lit.unicode_len();
    let ghost t = s@.skip(pos as int);
    if llen > slen - pos {
        assert(t.len() < lit@.len());
        return false;
    }
    let mut j: usize = 0;
    while j < llen
        invariant
            j <= llen,
            pos <= slen,
            slen == s@.len(),
            llen == lit@.len(),
            llen <= slen - pos,
            t == s@.skip(pos as int),
            forall|k: int| 0 <= k < j ==> t[k] == lit@[k],
        decreases llen - j,
    {
        let c = s.get_char(pos + j);
        proof {
            assert(t[j as int] == s@[pos + j]);
        }
        if c != lit.get_char(j) {
            assert(t.take(lit@.len() as int)[j as int] != lit@[j as int]);
            return false;
        }
        j += 1;
    }
    proof {
        assert(t.take(lit@.len() as int) =~= lit@);
    }
    true
}

/// Scans a string body from `pos` (just past the opening quote),
/// returning the decoded value and the position just past the closing
/// quote.
fn scan_string_at(s: &str, pos: usize) -> (r: Option<(String, usize)>)
    requires
        pos <= s@.len(),
    ensures
        match r {
            Some(p) => pos < p.1 <= s@.len() && spec_scan_string(s@.skip(pos as int)) == Some(
                (p.0@, p.1 - pos as int),
            ),
            None => spec_scan_string(s@.skip(pos as int)) is None,
        },
{
    let len = s.unicode_len();
    let mut acc = String::new();
    let mut cur = pos;
    loop
        invariant
            pos <= cur <= len,
            len == s@.len(),
            spec_scan_string(s@.skip(pos as int)) == (match spec_scan_string(
                s@.skip(cur as int),
            ) {
                Some((v, k)) => Some((acc@ + v, (cur - pos) + k)),
                None => None::<(Seq<char>, int)>,
            }),
        decreases len - cur,
    {
        let ghost t = s@.skip(cur as int);
        if cur == len {
            return None;
        }
        let c = s.get_char(cur);
        proof {
            assert(t[0] == s@[cur as int]);
        }
        if c == '"' {
            proof {
                assert(acc@ + Seq::<char>::empty() =~= acc@);
            }
            return Some((acc, cur + 1));
        } else if c == '\\' {
            if cur + 1 == len {
                return None;
            }
            let e = s.get_char(cur + 1);
            proof {
                assert(t[1] == s@[cur + 1]);
            }
            let u: char;
            if e == '"' {
                u = '"';
            } else if e == '\\' {
                u = '\\';
            } else if e == 'n' {
                u = '\n';
            } else if e == 't' {
                u = '\t';
            } else if e == 'r' {
                u = '\r';
            } else {
                return None;
            }
            let ghost acc0 = acc@;
            push_char(&mut acc, u);
            proof {
                assert(t.skip(2) =~= s@.skip(cur + 2));
                let o = spec_scan_string(s@.skip(cur + 2));
                if o is Some {
                    let p = o.unwrap();
                    assert(acc0 + (seq![u] + p.0) =~= acc@ + p.0);
                }
            }
            cur = cur + 2;
        } else {
            let ghost acc0 = acc@;
            push_char(&mut acc, c);
            proof {
                assert(t.skip(1) =~= s@.skip(cur + 1));
                let o = spec_scan_string(s@.skip(cur + 1));
                if o is Some {
                    let p = o.unwrap();
                    assert(acc0 + (seq![c] + p.0) =~= acc@ + p.0);
                }
            }
            cur = cur + 1;
        }
    }
}

fn digit_at(s: &str, i: usize) -> (r: bool)
    requires
        i < s@.len(),
    ensures
        r == is_digit(s@[i as int]),
{
    let u = s.get_char(i) as u32;
    48 <= u && u <= 57
}

/// Scans the maximal digit run from `pos` as a `u64`.
fn scan_u64_at(s: &str, pos: usize) -> (r: Option<(u64, usize)>)
    requires
        pos <= s@.len(),
    ensures
        match r {
            Some(p) => pos < p.1 <= s@.len() && spec_scan_u64(s@.skip(pos as int)) == Some(
                (p.0, p.1 - pos as int),
            ),
            None => spec_scan_u64(s@.skip(pos as int)) is None,
        },
{
    let len = s.unicode_len();
    let ghost t = s@.skip(pos as int);
    let mut cur = pos;
    let mut acc: u64 = 0;
    while cur < len && digit_at(s, cur)
        invariant
            pos <= cur <= len,
            len == s@.len(),
            t == s@.skip(pos as int),
            all_digits(t.take(cur - pos as int)),
            acc == spec_digits_val(t.take(cur - pos as int)),
        decreases len - cur,
    {
        let c = s.get_char(cur);
        proof {
            assert(t[cur - pos as int] == s@[cur as int]);
        }
        let d: u64 = ((c as u32) - 48) as u64;
        let next = match acc.checked_mul(10) {
            Some(x) => x.checked_add(d),
            None => None,
        };
        match next {
            Some(x) => {
                proof {
                    let a = t.take(cur - pos as int);
                    let b = t.take(cur + 1 - pos as int);
                    assert(b.drop_last() =~= a);
                    assert(b.last() == t[cur - pos as int]);
                }
                acc = x;
                cur = cur + 1;
            },
            None => {
                proof {
                    let m = cur - pos as int;
                    let a = t.take(m);
                    let b = t.take(m + 1);
                    assert(b.drop_last() =~= a);
                    assert(b.last() == t[m]);
                    assert(spec_digits_val(b) > u64::MAX);
                    lemma_digit_run_le_len(t);
                    lemma_digit_run_lower(t, m + 1);
                    lemma_digits_val_prefix_le(t, m + 1, spec_digit_run(t));
                }
                return None;
            },
        }
    }
    proof {
        lemma_digit_run_exact(t, cur - pos as int);
    }
    if cur == pos {
        return None;
    }
    Some((acc, cur))
}

/// Scans an optionally negated number that fits an `i32` from `pos`.
fn scan_i32_at(s: &str, pos: usize) -> (r: Option<(i32, usize)>)
    requires
        pos <= s@.len(),
    ensures
        match r {
            Some(p) => pos < p.1 <= s@.len() && spec_scan_i32(s@.skip(pos as int)) == Some(
                (p.0, p.1 - pos as int),
            ),
            None => spec_scan_i32(s@.skip(pos as int)) is None,
        },
{
    let len = s.unicode_len();
    let ghost t = s@.skip(pos as int);
    if pos < len && s.get_char(pos) == '-' {
        proof {
            assert(t[0] == s@[pos as int]);
            assert(t.skip(1) =~= s@.skip(pos + 1));
        }
        match scan_u64_at(s, pos + 1) {
            Some((v, p2)) => {
                if v <= 0x8000_0000 {
                    Some(((-(v as i64)) as i32, p2))
                } else {
                    None
                }
            },
            None => None,
        }
    } else {
        proof {
            if t.len() > 0 {
                assert(t[0] == s@[pos as int]);
            }
        }
        match scan_u64_at(s, pos) {
            Some((v, p2)) => {
                if v <= 0x7fff_ffff {
                    Some((v as i32, p2))
                } else {
                    None
                }
            },
            None => None,
        }
    }
}

/// One escaped string field at the head of `t`, then the closing brace
/// and nothing more: the decoded value.
pub open spec fn spec_field_tail(t: Seq<char>, key: Seq<char>) -> Option<Seq<char>> {
    if spec_starts_with(t, key) {
        match spec_scan_string(t.skip(key.len() as int)) {
            Some((v, k)) => if t.skip(key.len() as int).skip(k) == seq!['}'] {
                Some(v)
            } else {
                None
            },
            None => None,
        }
    } else {
        None
    }
}

/// Two escaped string fields at the head of `t`, then the closing brace.
pub open spec fn spec_two_field_tail(t: Seq<char>, key1: Seq<char>, key2: Seq<char>) -> Option<
    (Seq<char>, Seq<char>),
> {
    if spec_starts_with(t, key1) {
        match spec_scan_string(t.skip(key1.len() as int)) {
            Some((v1, k)) => match spec_field_tail(t.skip(key1.len() as int).skip(k), key2) {
                Some(v2) => Some((v1, v2)),
                None => None,
            },
            None => None,
        }
    } else {
        None
    }
}

pub open spec fn spec_snap_after_depth(
    t: Seq<char>,
    interactive: bool,
    compact: bool,
    max_depth: Option<i32>,
) -> Option<ReqModel> {
    if spec_starts_with(t, ",\"selector\":\""@) {
        match spec_scan_string(t.skip(",\"selector\":\""@.len() as int)) {
            Some((v, k)) => if t.skip(",\"selector\":\""@.len() as int).skip(k) == seq!['}'] {
                Some(
                    ReqModel::Snapshot { interactive, compact, max_depth, selector: Some(v) },
                )
            } else {
                None
            },
            None => None,
        }
    } else if t == seq!['}'] {
        Some(ReqModel::Snapshot { interactive, compact, max_depth, selector: None })
    } else {
        None
    }
}

pub open spec fn spec_snap_after_flags(t: Seq<char>, interactive: bool, compact: bool) -> Option<
    ReqModel,
> {
    if spec_starts_with(t, ",\"maxDepth\":"@) {
        match spec_scan_i32(t.skip(",\"maxDepth\":"@.len() as int)) {
            Some((d, k)) => spec_snap_after_depth(
                t.skip(",\"maxDepth\":"@.len() as int).skip(k),
                interactive,
                compact,
                Some(d),
            ),
            None => None,
        }
    } else {
        spec_snap_after_depth(t, interactive, compact, None)
    }
}

pub open spec fn spec_decode_snapshot(t: Seq<char>) -> Option<ReqModel> {
    let i = spec_starts_with(t, ",\"interactive\":true"@);
    let t1 = if i {
        t.skip(",\"interactive\":true"@.len() as int)
    } else {
        t
    };
    let c = spec_starts_with(t1, ",\"compact\":true"@);
    let t2 = if c {
        t1.skip(",\"compact\":true"@.len() as int)
    } else {
        t1
    };
    spec_snap_after_flags(t2, i, c)
}

pub open spec fn spec_decode_wait(t: Seq<char>) -> Option<ReqModel> {
    if spec_starts_with(t, ",\"timeout\":"@) {
        match spec_scan_u64(t.skip(",\"timeout\":"@.len() as int)) {
            Some((v, k)) => if t.skip(",\"timeout\":"@.len() as int).skip(k) == seq!['}'] {
                Some(ReqModel::WaitTimeout { timeout: v })
            } else {
                None
            },
            None => None,
        }
    } else {
        match spec_field_tail(t, ",\"selector\":\""@) {
            Some(v) => Some(ReqModel::WaitSelector { selector: v }),
            None => None,
        }
    }
}

/// The action-specific tail of an encoded request: what follows the
/// action's closing quote, down to the final brace.
pub open spec fn spec_decode_body(name: Seq<char>, t: Seq<char>) -> Option<ReqModel> {
    if name == "navigate"@ {
        match spec_field_tail(t, ",\"url\":\""@) {
            Some(v) => Some(ReqModel::Navigate { url: v }),
            None => None,
        }
    } else if name == "click"@ {
        match spec_field_tail(t, ",\"selector\":\""@) {
            Some(v) => Some(ReqModel::Click { selector: v }),
            None => None,
        }
    } else if name == "fill"@ {
        match spec_two_field_tail(t, ",\"selector\":\""@, ",\"value\":\""@) {
            Some(p) => Some(ReqModel::Fill { selector: p.0, value: p.1 }),
            None => None,
        }
    } else if name == "type"@ {
        match spec_two_field_tail(t, ",\"selector\":\""@, ",\"text\":\""@) {
            Some(p) => Some(ReqModel::TypeText { selector: p.0, text: p.1 }),
            None => None,
        }
    } else if name == "hover"@ {
        match spec_field_tail(t, ",\"selector\":\""@) {
            Some(v) => Some(ReqModel::Hover { selector: v }),
            None => None,
        }
    } else if name == "snapshot"@ {
        spec_decode_snapshot(t)
    } else if name == "screenshot"@ {
        if t == ",\"path\":null}"@ {
            Some(ReqModel::Screenshot { path: None })
        } else {
            match spec_field_tail(t, ",\"path\":\""@) {
                Some(v) => Some(ReqModel::Screenshot { path: Some(v) }),
                None => None,
            }
        }
    } else if name == "close"@ {
        if t == seq!['}'] {
            Some(ReqModel::Close)
        } else {
            None
        }
    } else if name == "gettext"@ {
        match spec_field_tail(t, ",\"selector\":\""@) {
            Some(v) => Some(ReqModel::GetText { selector: v }),
            None => None,
        }
    } else if name == "url"@ {
        if t == seq!['}'] {
            Some(ReqModel::GetUrl)
        } else {
            None
        }
    } else if name == "title"@ {
        if t == seq!['}'] {
            Some(ReqModel::GetTitle)
        } else {
            None
        }
    } else if name == "press"@ {
        match spec_field_tail(t, ",\"key\":\""@) {
            Some(v) => Some(ReqModel::Press { key: v }),
            None => None,
        }
    } else if name == "wait"@ {
        spec_decode_wait(t)
    } else if name == "back"@ {
        if t == seq!['}'] {
            Some(ReqModel::Back)
        } else {
            None
        }
    } else if name == "forward"@ {
        if t == seq!['}'] {
            Some(ReqModel::Forward)
        } else {
            None
        }
    } else if name == "reload"@ {
        if t == seq!['}'] {
            Some(ReqModel::Reload)
        } else {
            None
        }
    } else if name == "evaluate"@ {
        match spec_field_tail(t, ",\"script\":\""@) {
            Some(v) => Some(ReqModel::Eval { script: v }),
            None => None,
        }
    } else {
        None
    }
}

/// What one encoded line decodes to: the correlation id and the request,
/// through the same schema the encoder writes.
pub open spec fn spec_decode(line: Seq<char>) -> Option<(Seq<char>, ReqModel)> {
    if spec_starts_with(line, "{\"id\":\""@) {
        let t1 = line.skip("{\"id\":\""@.len() as int);
        match spec_scan_string(t1) {
            Some((id, k1)) => {
                let t2 = t1.skip(k1);
                if spec_starts_with(t2, ",\"action\":\""@) {
                    let t3 = t2.skip(",\"action\":\""@.len() as int);
                    match spec_scan_string(t3) {
                        Some((name, k2)) => match spec_decode_body(name, t3.skip(k2)) {
                            Some(m) => Some((id, m)),
                            None => None,
                        },
                        None => None,
                    }
                } else {
                    None
                }
            },
            None => None,
        }
    } else {
        None
    }
}

/// Whether position `pos` holds the closing brace and nothing follows.
fn end_at(s: &str, pos: usize) -> (r: bool)
    requires
        pos <= s@.len(),
    ensures
        r == (s@.skip(pos as int) == seq!['}']),
{
    let len = s.unicode_len();
    let ghost t = s@.skip(pos as int);
    if pos < len {
        let c = s.get_char(pos);
        proof {
            assert(t[0] == s@[pos as int]);
        }
        if len - pos == 1 && c == '}' {
            proof {
                assert(t =~= seq!['}']);
            }
            true
        } else {
            proof {
                if t == seq!['}'] {
                    assert(t.len() == 1);
                    assert(t[0] == '}');
                }
            }
            false
        }
    } else {
        proof {
            assert(t.len() == 0);
        }
        false
    }
}

/// Decodes one escaped string field followed by the closing brace.
fn field_tail_at(s: &str, pos: usize, key: &str) -> (r: Option<String>)
    requires
        pos <= s@.len(),
    ensures
        match r {
            Some(v) => spec_field_tail(s@.skip(pos as int), key@) == Some(v@),
            None => spec_field_tail(s@.skip(pos as int), key@) is None,
        },
{
    if !starts_with_at(s, pos, key) {
        return None;
    }
    let kl = key.unicode_len();
    proof {
        assert(s@.skip(pos as int).skip(key@.len() as int) =~= s@.skip(pos + kl));
    }
    match scan_string_at(s, pos + kl) {
        None => None,
        Some((v, p2)) => {
            proof {
                assert(s@.skip(pos + kl).skip(p2 - (pos + kl)) =~= s@.skip(p2 as int));
            }
            if end_at(s, p2) {
                Some(v)
            } else {
                None
            }
        },
    }
}

/// Decodes two escaped string fields followed by the closing brace.
fn two_field_tail_at(s: &str, pos: usize, key1: &str, key2: &str) -> (r: Option<(String, String)>)
    requires
        pos <= s@.len(),
    ensures
        match r {
            Some(p) => spec_two_field_tail(s@.skip(pos as int), key1@, key2@) == Some(
                (p.0@, p.1@),
            ),
            None => spec_two_field_tail(s@.skip(pos as int), key1@, key2@) is None,
        },
{
    if !starts_with_at(s, pos, key1) {
        return None;
    }
    let kl = key1.unicode_len();
    proof {
        assert(s@.skip(pos as int).skip(key1@.len() as int) =~= s@.skip(pos + kl));
    }
    match scan_string_at(s, pos + kl) {
        None => None,
        Some((v1, p2)) => {
            proof {
                assert(s@.skip(pos + kl).skip(p2 - (pos + kl)) =~= s@.skip(p2 as int));
            }
            match field_tail_at(s, p2, key2) {
                Some(v2) => Some((v1, v2)),
                None => None,
            }
        },
    }
}

/// Decodes the selector field and closing brace of a snapshot tail.
fn snap_after_depth_at(
    s: &str,
    pos: usize,
    interactive: bool,
    compact: bool,
    max_depth: Option<i32>,
) -> (r: Option<Request>)
    requires
        pos <= s@.len(),
    ensures
        match r {
            Some(req) => spec_snap_after_depth(s@.skip(pos as int), interactive, compact, max_depth)
                == Some(req@),
            None => spec_snap_after_depth(s@.skip(pos as int), interactive, compact, max_depth)
                is None,
        },
{
    let ghost t = s@.skip(pos as int);
    let ks = ",\"selector\":\"";
    if starts_with_at(s, pos, ks) {
        let base = pos + ks.unicode_len();
        proof {
            assert(t.skip(ks@.len() as int) =~= s@.skip(base as int));
        }
        match scan_string_at(s, base) {
            Some((v, p3)) => {
                proof {
                    assert(s@.skip(base as int).skip(p3 - base) =~= s@.skip(p3 as int));
                }
                if end_at(s, p3) {
                    Some(Request::Snapshot { interactive, compact, max_depth, selector: Some(v) })
                } else {
                    None
                }
            },
            None => None,
        }
    } else if end_at(s, pos) {
        Some(Request::Snapshot { interactive, compact, max_depth, selector: None })
    } else {
        None
    }
}

/// Decodes the depth field, if present, of a snapshot tail.
fn snap_after_flags_at(s: &str, pos: usize, interactive: bool, compact: bool) -> (r: Option<
    Request,
>)
    requires
        pos <= s@.len(),
    ensures
        match r {
            Some(req) => spec_snap_after_flags(s@.skip(pos as int), interactive, compact) == Some(
                req@,
            ),
            None => spec_snap_after_flags(s@.skip(pos as int), interactive, compact) is None,
        },
{
    let ghost t = s@.skip(pos as int);
    let kd = ",\"maxDepth\":";
    if starts_with_at(s, pos, kd) {
        let base = pos + kd.unicode_len();
        proof {
            assert(t.skip(kd@.len() as int) =~= s@.skip(base as int));
        }
        match scan_i32_at(s, base) {
            Some((d, p2)) => {
                proof {
                    assert(s@.skip(base as int).skip(p2 - base) =~= s@.skip(p2 as int));
                }
                snap_after_depth_at(s, p2, interactive, compact, Some(d))
            },
            None => None,
        }
    } else {
        snap_after_depth_at(s, pos, interactive, compact, None)
    }
}

/// Decodes the snapshot tail: the optional flags in their fixed order,
/// then the closing brace.
fn decode_snapshot_at(s: &str, pos: usize) -> (r: Option<Request>)
    requires
        pos <= s@.len(),
    ensures
        match r {
            Some(req) => spec_decode_snapshot(s@.skip(pos as int)) == Some(req@),
            None => spec_decode_snapshot(s@.skip(pos as int)) is None,
        },
{
    let ghost t = s@.skip(pos as int);
    let ki = ",\"interactive\":true";
    let mut pos2 = pos;
    let interactive = starts_with_at(s, pos2, ki);
    if interactive {
        pos2 = pos2 + ki.unicode_len();
    }
    proof {
        if interactive {
            assert(t.skip(ki@.len() as int) =~= s@.skip(pos2 as int));
        }
    }
    let ghost t1 = s@.skip(pos2 as int);
    let kc = ",\"compact\":true";
    let compact = starts_with_at(s, pos2, kc);
    if compact {
        pos2 = pos2 + kc.unicode_len();
    }
    proof {
        if compact {
            assert(t1.skip(kc@.len() as int) =~= s@.skip(pos2 as int));
        }
    }
    snap_after_flags_at(s, pos2, interactive, compact)
}

/// Decodes the wait tail: a numeric timeout field or a selector field.
fn decode_wait_at(s: &str, pos: usize) -> (r: Option<Request>)
    requires
        pos <= s@.len(),
    ensures
        match r {
            Some(req) => spec_decode_wait(s@.skip(pos as int)) == Some(req@),
            None => spec_decode_wait(s@.skip(pos as int)) is None,
        },
{
    let kt = ",\"timeout\":";
    let ghost t = s@.skip(pos as int);
    if starts_with_at(s, pos, kt) {
        let base = pos + kt.unicode_len();
        proof {
            assert(t.skip(kt@.len() as int) =~= s@.skip(base as int));
        }
        match scan_u64_at(s, base) {
            Some((v, p2)) => {
                proof {
                    assert(s@.skip(base as int).skip(p2 - base) =~= s@.skip(p2 as int));
                }
                if end_at(s, p2) {
                    Some(Request::WaitTimeout { timeout: v })
                } else {
                    None
                }
            },
            None => None,
        }
    } else {
        match field_tail_at(s, pos, ",\"selector\":\"") {
            Some(v) => Some(Request::WaitSelector { selector: v }),
            None => None,
        }
    }
}

/// Decodes the action-specific tail, given the already-read action word.
#[verifier::rlimit(100)]
fn decode_body_at(s: &str, pos: usize, name: &str) -> (r: Option<Request>)
    requires
        pos <= s@.len(),
    ensures
        match r {
            Some(req) => spec_decode_body(name@, s@.skip(pos as int)) == Some(req@),
            None => spec_decode_body(name@, s@.skip(pos as int)) is None,
        },
{
    if str_eq(name, "navigate") {
        match field_tail_at(s, pos, ",\"url\":\"") {
            Some(v) => Some(Request::Navigate { url: v }),
            None => None,
        }
    } else if str_eq(name, "click") {
        match field_tail_at(s, pos, ",\"selector\":\"") {
            Some(v) => Some(Request::Click { selector: v }),
            None => None,
        }
    } else if str_eq(name, "fill") {
        match two_field_tail_at(s, pos, ",\"selector\":\"", ",\"value\":\"") {
            Some(p) => Some(Request::Fill { selector: p.0, value: p.1 }),
            None => None,
        }
    } else if str_eq(name, "type") {
        match two_field_tail_at(s, pos, ",\"selector\":\"", ",\"text\":\"") {
            Some(p) => Some(Request::TypeText { selector: p.0, text: p.1 }),
            None => None,
        }
    } else if str_eq(name, "hover") {
        match field_tail_at(s, pos, ",\"selector\":\"") {
            Some(v) => Some(Request::Hover { selector: v }),
            None => None,
        }
    } else if str_eq(name, "snapshot") {
        decode_snapshot_at(s, pos)
    } else if str_eq(name, "screenshot") {
        let kn = ",\"path\":null}";
        let ghost t = s@.skip(pos as int);
        let is_prefix = starts_with_at(s, pos, kn);
        let whole = is_prefix && pos + kn.unicode_len() == s.unicode_len();
        proof {
            if whole {
                assert(t =~= t.take(kn@.len() as int));
            }
            if t == kn@ {
                assert(t.take(kn@.len() as int) =~= kn@);
            }
        }
        if whole {
            Some(Request::Screenshot { path: None })
        } else {
            match field_tail_at(s, pos, ",\"path\":\"") {
                Some(v) => Some(Request::Screenshot { path: Some(v) }),
                None => None,
            }
        }
    } else if str_eq(name, "close") {
        if end_at(s, pos) {
            Some(Request::Close)
        } else {
            None
        }
    } else if str_eq(name, "gettext") {
        match field_tail_at(s, pos, ",\"selector\":\"") {
            Some(v) => Some(Request::GetText { selector: v }),
            None => None,
        }
    } else if str_eq(name, "url") {
        if end_at(s, pos) {
            Some(Request::GetUrl)
        } else {
            None
        }
    } else if str_eq(name, "title") {
        if end_at(s, pos) {
            Some(Request::GetTitle)
        } else {
            None
        }
    } else if str_eq(name, "press") {
        match field_tail_at(s, pos, ",\"key\":\"") {
            Some(v) => Some(Request::Press { key: v }),
            None => None,
        }
    } else if str_eq(name, "wait") {
        decode_wait_at(s, pos)
    } else if str_eq(name, "back") {
        if end_at(s, pos) {
            Some(Request::Back)
        } else {
            None
        }
    } else if str_eq(name, "forward") {
        if end_at(s, pos) {
            Some(Request::Forward)
        } else {
            None
        }
    } else if str_eq(name, "reload") {
        if end_at(s, pos) {
            Some(Request::Reload)
        } else {
            None
        }
    } else if str_eq(name, "evaluate") {
        match field_tail_at(s, pos, ",\"script\":\"") {
            Some(v) => Some(Request::Eval { script: v }),
            None => None,
        }
    } else {
        None
    }
}

/// Decodes one line of the wire schema back into the correlation id and
/// the request.
pub fn decode_request(line: &str) -> (r: Option<(String, Request)>)
    ensures
        match r {
            Some(p) => spec_decode(line@) == Some((p.0@, p.1@)),
            None => spec_decode(line@) is None,
        },
{
    let key0 = "{\"id\":\"";
    proof {
        assert(line@.skip(0) =~= line@);
    }
    if !starts_with_at(line, 0, key0) {
        return None;
    }
    let p1 = key0.unicode_len();
    proof {
        assert(line@.skip(0).skip(key0@.len() as int) =~= line@.skip(p1 as int));
    }
    match scan_string_at(line, p1) {
        None => None,
        Some((id, p2)) => {
            proof {
                assert(line@.skip(p1 as int).skip(p2 - p1) =~= line@.skip(p2 as int));
            }
            let key1 = ",\"action\":\"";
            if !starts_with_at(line, p2, key1) {
                return None;
            }
            let p3 = p2 + key1.unicode_len();
            proof {
                assert(line@.skip(p2 as int).skip(key1@.len() as int) =~= line@.skip(p3 as int));
            }
            match scan_string_at(line, p3) {
                None => None,
                Some((name, p4)) => {
                    proof {
                        assert(line@.skip(p3 as int).skip(p4 - p3) =~= line@.skip(p4 as int));
                    }
                    match decode_body_at(line, p4, name.as_str()) {
                        Some(req) => Some((id, req)),
                        None => None,
                    }
                },
            }
        },
    }
}

proof fn lemma_prefix_skip(a: Seq<char>, b: Seq<char>)
    ensures
        spec_starts_with(a + b, a),
        (a + b).skip(a.len() as int) == b,
{
    assert((a + b).take(a.len() as int) =~= a);
    assert((a + b).skip(a.len() as int) =~= b);
}

proof fn lemma_not_prefix_at(t: Seq<char>, lit: Seq<char>, j: int)
    requires
        0 <= j < t.len(),
        j < lit.len(),
        t[j] != lit[j],
    ensures
        !spec_starts_with(t, lit),
{
    if spec_starts_with(t, lit) {
        assert(t.take(lit.len() as int)[j] == t[j]);
    }
}

/// Scanning an escaped string body followed by its closing quote gives
/// back exactly the original characters.
proof fn lemma_scan_escape(sv: Seq<char>, rest: Seq<char>)
    ensures
        spec_scan_string(spec_escape(sv) + seq!['"'] + rest) == Some(
            (sv, spec_escape(sv).len() as int + 1),
        ),
    decreases sv.len(),
{
    let t = spec_escape(sv) + seq!['"'] + rest;
    if sv.len() == 0 {
        assert(spec_escape(sv) =~= Seq::<char>::empty());
        assert(t =~= seq!['"'] + rest);
        assert(t[0] == '"');
        assert(sv =~= Seq::<char>::empty());
    } else {
        let c = sv[0];
        let e = spec_escape_char(c);
        let s1 = sv.skip(1);
        lemma_scan_escape(s1, rest);
        let t1 = spec_escape(s1) + seq!['"'] + rest;
        assert(spec_escape(sv) == e + spec_escape(s1));
        assert(t =~= e + t1);
        assert(seq![c] + s1 =~= sv);
        if c == '"' || c == '\\' || c == '\n' || c == '\t' || c == '\r' {
            assert(t[0] == e[0]);
            assert(t[1] == e[1]);
            assert(spec_unescape_code(e[1]) == Some(c));
            assert(t.skip(2) =~= t1);
        } else {
            assert(t[0] == c);
            assert(t.skip(1) =~= t1);
        }
    }
}

/// Scanning the decimal rendering of a number, followed by a non-digit,
/// gives back the number.
proof fn lemma_scan_u64_digits(n: u64, rest: Seq<char>)
    requires
        rest.len() > 0,
        !is_digit(rest[0]),
    ensures
        spec_scan_u64(spec_u64_digits(n as nat) + rest) == Some(
            (n, spec_u64_digits(n as nat).len() as int),
        ),
{
    let d = spec_u64_digits(n as nat);
    lemma_u64_digits_ok(n as nat);
    let t = d + rest;
    assert(t.take(d.len() as int) =~= d);
    assert(t[d.len() as int] == rest[0]);
    lemma_digit_run_exact(t, d.len() as int);
}

/// The same for the signed rendering.
proof fn lemma_scan_i32_str(d: i32, rest: Seq<char>)
    requires
        rest.len() > 0,
        !is_digit(rest[0]),
    ensures
        spec_scan_i32(spec_i32_str(d as int) + rest) == Some(
            (d, spec_i32_str(d as int).len() as int),
        ),
{
    if d < 0 {
        let mag = (-(d as int)) as nat;
        let n64 = mag as u64;
        assert(n64 as nat == mag);
        let digits = spec_u64_digits(mag);
        let t = spec_i32_str(d as int) + rest;
        assert(spec_i32_str(d as int) == seq!['-'] + digits);
        assert(t =~= seq!['-'] + (digits + rest));
        assert(t[0] == '-');
        assert(t.skip(1) =~= digits + rest);
        lemma_scan_u64_digits(n64, rest);
        assert(spec_scan_u64(digits + rest) == Some((n64, digits.len() as int)));
        assert(n64 <= 0x8000_0000);
        assert((-(n64 as int)) as i32 == d);
    } else {
        let t = spec_i32_str(d as int) + rest;
        let digits = spec_u64_digits(d as nat);
        lemma_u64_digits_ok(d as nat);
        assert(t[0] == digits[0]);
        assert(is_digit(t[0]));
        assert(t[0] != '-');
        lemma_scan_u64_digits(d as u64, rest);
        assert(t =~= digits + rest);
    }
}

/// A single escaped field, then the closing brace, decodes to its value.
proof fn lemma_field_tail(key: Seq<char>, v: Seq<char>)
    ensures
        spec_field_tail(key + spec_escape(v) + seq!['"'] + seq!['}'], key) == Some(v),
{
    let body = spec_escape(v) + seq!['"'] + seq!['}'];
    let t = key + spec_escape(v) + seq!['"'] + seq!['}'];
    assert(t =~= key + body);
    lemma_prefix_skip(key, body);
    lemma_scan_escape(v, seq!['}']);
    assert(body.skip(spec_escape(v).len() as int + 1) =~= seq!['}']);
}

/// Two escaped fields, then the closing brace, decode to their values.
proof fn lemma_two_field_tail(key1: Seq<char>, v1: Seq<char>, key2: Seq<char>, v2: Seq<char>)
    ensures
        spec_two_field_tail(
            key1 + spec_escape(v1) + seq!['"'] + key2 + spec_escape(v2) + seq!['"'] + seq!['}'],
            key1,
            key2,
        ) == Some((v1, v2)),
{
    let rest1 = key2 + spec_escape(v2) + seq!['"'] + seq!['}'];
    let body1 = spec_escape(v1) + seq!['"'] + rest1;
    let t = key1 + spec_escape(v1) + seq!['"'] + key2 + spec_escape(v2) + seq!['"'] + seq!['}'];
    assert(t =~= key1 + body1);
    lemma_prefix_skip(key1, body1);
    lemma_scan_escape(v1, rest1);
    assert(body1.skip(spec_escape(v1).len() as int + 1) =~= rest1);
    assert(rest1 =~= key2 + spec_escape(v2) + seq!['"'] + seq!['}']);
    lemma_field_tail(key2, v2);
}

/// The snapshot tail decodes back to exactly the flags it was encoded
/// from.
#[verifier::rlimit(100)]
proof fn lemma_decode_snapshot_case(
    interactive: bool,
    compact: bool,
    max_depth: Option<i32>,
    selector: Option<Seq<char>>,
)
    ensures
        spec_decode_snapshot(
            spec_encode_body(
                ReqModel::Snapshot { interactive, compact, max_depth, selector },
            ) + seq!['}'],
        ) == Some(ReqModel::Snapshot { interactive, compact, max_depth, selector }),
{
    reveal_strlit(",\"interactive\":true");
    reveal_strlit(",\"compact\":true");
    reveal_strlit(",\"maxDepth\":");
    reveal_strlit(",\"selector\":\"");
    let ki = ",\"interactive\":true"@;
    let kc = ",\"compact\":true"@;
    let kd = ",\"maxDepth\":"@;
    let ks = ",\"selector\":\""@;
    let m = ReqModel::Snapshot { interactive, compact, max_depth, selector };
    let bi: Seq<char> = if interactive {
        ki
    } else {
        Seq::empty()
    };
    let bc: Seq<char> = if compact {
        kc
    } else {
        Seq::empty()
    };
    let bd: Seq<char> = match max_depth {
        Some(n) => kd + spec_i32_str(n as int),
        None => Seq::empty(),
    };
    let bs: Seq<char> = match selector {
        Some(v) => ks + spec_escape(v) + seq!['"'],
        None => Seq::empty(),
    };
    let t = spec_encode_body(m) + seq!['}'];
    let r1 = bc + bd + bs + seq!['}'];
    let r2 = bd + bs + seq!['}'];
    let r3 = bs + seq!['}'];
    assert(t =~= bi + r1);
    assert(r1 =~= bc + r2);
    assert(r2 =~= bd + r3);
    // step 1: the interactive flag
    if interactive {
        lemma_prefix_skip(ki, r1);
        assert(t.skip(ki.len() as int) == r1);
    } else {
        assert(t =~= r1);
        if compact {
            assert(t[2] == kc[2]);
            lemma_not_prefix_at(t, ki, 2);
        } else if max_depth is Some {
            assert(t =~= kd + (spec_i32_str(max_depth.unwrap() as int) + r3));
            assert(t[2] == kd[2]);
            lemma_not_prefix_at(t, ki, 2);
        } else if selector is Some {
            assert(t =~= ks + (spec_escape(selector.unwrap()) + seq!['"'] + seq!['}']));
            assert(t[2] == ks[2]);
            lemma_not_prefix_at(t, ki, 2);
        } else {
            assert(t =~= seq!['}']);
            assert(t.len() < ki.len());
        }
    }
    // step 2: the compact flag
    if compact {
        lemma_prefix_skip(kc, r2);
        assert(r1.skip(kc.len() as int) == r2);
    } else {
        assert(r1 =~= r2);
        if max_depth is Some {
            assert(r1 =~= kd + (spec_i32_str(max_depth.unwrap() as int) + r3));
            assert(r1[2] == kd[2]);
            lemma_not_prefix_at(r1, kc, 2);
        } else if selector is Some {
            assert(r1 =~= ks + (spec_escape(selector.unwrap()) + seq!['"'] + seq!['}']));
            assert(r1[2] == ks[2]);
            lemma_not_prefix_at(r1, kc, 2);
        } else {
            assert(r1 =~= seq!['}']);
            assert(r1.len() < kc.len());
        }
    }
    // step 3: the depth field
    match max_depth {
        Some(n) => {
            let num = spec_i32_str(n as int);
            assert(r2 =~= kd + (num + r3));
            lemma_prefix_skip(kd, num + r3);
            assert(r3.len() > 0);
            if selector is Some {
                assert(r3[0] == ks[0]);
                assert(!is_digit(','));
            } else {
                assert(r3 =~= seq!['}']);
                assert(!is_digit('}'));
            }
            lemma_scan_i32_str(n, r3);
            assert((num + r3).skip(num.len() as int) =~= r3);
        },
        None => {
            assert(r2 =~= r3);
            if selector is Some {
                assert(r2 =~= ks + (spec_escape(selector.unwrap()) + seq!['"'] + seq!['}']));
                assert(r2[2] == ks[2]);
                lemma_not_prefix_at(r2, kd, 2);
            } else {
                assert(r2 =~= seq!['}']);
                assert(r2.len() < kd.len());
            }
        },
    }
    // step 4: the selector field and the closing brace
    match selector {
        Some(v) => {
            assert(r3 =~= ks + (spec_escape(v) + seq!['"'] + seq!['}']));
            lemma_prefix_skip(ks, spec_escape(v) + seq!['"'] + seq!['}']);
            lemma_scan_escape(v, seq!['}']);
            assert((spec_escape(v) + seq!['"'] + seq!['}']).skip(spec_escape(v).len() as int + 1)
                =~= seq!['}']);
        },
        None => {
            assert(r3 =~= seq!['}']);
            assert(r3.len() < ks.len());
        },
    }
}

/// The seventeen action words are pairwise distinct, so the decoder's
/// dispatch on the action can pick only the branch the encoder wrote.
proof fn lemma_action_words_distinct()
    ensures
        "navigate"@ != "click"@,
        "navigate"@ != "fill"@,
        "navigate"@ != "type"@,
        "navigate"@ != "hover"@,
        "navigate"@ != "snapshot"@,
        "navigate"@ != "screenshot"@,
        "navigate"@ != "close"@,
        "navigate"@ != "gettext"@,
        "navigate"@ != "url"@,
        "navigate"@ != "title"@,
        "navigate"@ != "press"@,
        "navigate"@ != "wait"@,
        "navigate"@ != "back"@,
        "navigate"@ != "forward"@,
        "navigate"@ != "reload"@,
        "navigate"@ != "evaluate"@,
        "click"@ != "fill"@,
        "click"@ != "type"@,
        "click"@ != "hover"@,
        "click"@ != "snapshot"@,
        "click"@ != "screenshot"@,
        "click"@ != "close"@,
        "click"@ != "gettext"@,
        "click"@ != "url"@,
        "click"@ != "title"@,
        "click"@ != "press"@,
        "click"@ != "wait"@,
        "click"@ != "back"@,
        "click"@ != "forward"@,
        "click"@ != "reload"@,
        "click"@ != "evaluate"@,
        "fill"@ != "type"@,
        "fill"@ != "hover"@,
        "fill"@ != "snapshot"@,
        "fill"@ != "screenshot"@,
        "fill"@ != "close"@,
        "fill"@ != "gettext"@,
        "fill"@ != "url"@,
        "fill"@ != "title"@,
        "fill"@ != "press"@,
        "fill"@ != "wait"@,
        "fill"@ != "back"@,
        "fill"@ != "forward"@,
        "fill"@ != "reload"@,
        "fill"@ != "evaluate"@,
        "type"@ != "hover"@,
        "type"@ != "snapshot"@,
        "type"@ != "screenshot"@,
        "type"@ != "close"@,
        "type"@ != "gettext"@,
        "type"@ != "url"@,
        "type"@ != "title"@,
        "type"@ != "press"@,
        "type"@ != "wait"@,
        "type"@ != "back"@,
        "type"@ != "forward"@,
        "type"@ != "reload"@,
        "type"@ != "evaluate"@,
        "hover"@ != "snapshot"@,
        "hover"@ != "screenshot"@,
        "hover"@ != "close"@,
        "hover"@ != "gettext"@,
        "hover"@ != "url"@,
        "hover"@ != "title"@,
        "hover"@ != "press"@,
        "hover"@ != "wait"@,
        "hover"@ != "back"@,
        "hover"@ != "forward"@,
        "hover"@ != "reload"@,
        "hover"@ != "evaluate"@,
        "snapshot"@ != "screenshot"@,
        "snapshot"@ != "close"@,
        "snapshot"@ != "gettext"@,
        "snapshot"@ != "url"@,
        "snapshot"@ != "title"@,
        "snapshot"@ != "press"@,
        "snapshot"@ != "wait"@,
        "snapshot"@ != "back"@,
        "snapshot"@ != "forward"@,
        "snapshot"@ != "reload"@,
        "snapshot"@ != "evaluate"@,
        "screenshot"@ != "close"@,
        "screenshot"@ != "gettext"@,
        "screenshot"@ != "url"@,
        "screenshot"@ != "title"@,
        "screenshot"@ != "press"@,
        "screenshot"@ != "wait"@,
        "screenshot"@ != "back"@,
        "screenshot"@ != "forward"@,
        "screenshot"@ != "reload"@,
        "screenshot"@ != "evaluate"@,
        "close"@ != "gettext"@,
        "close"@ != "url"@,
        "close"@ != "title"@,
        "close"@ != "press"@,
        "close"@ != "wait"@,
        "close"@ != "back"@,
        "close"@ != "forward"@,
        "close"@ != "reload"@,
        "close"@ != "evaluate"@,
        "gettext"@ != "url"@,
        "gettext"@ != "title"@,
        "gettext"@ != "press"@,
        "gettext"@ != "wait"@,
        "gettext"@ != "back"@,
        "gettext"@ != "forward"@,
        "gettext"@ != "reload"@,
        "gettext"@ != "evaluate"@,
        "url"@ != "title"@,
        "url"@ != "press"@,
        "url"@ != "wait"@,
        "url"@ != "back"@,
        "url"@ != "forward"@,
        "url"@ != "reload"@,
        "url"@ != "evaluate"@,
        "title"@ != "press"@,
        "title"@ != "wait"@,
        "title"@ != "back"@,
        "title"@ != "forward"@,
        "title"@ != "reload"@,
        "title"@ != "evaluate"@,
        "press"@ != "wait"@,
        "press"@ != "back"@,
        "press"@ != "forward"@,
        "press"@ != "reload"@,
        "press"@ != "evaluate"@,
        "wait"@ != "back"@,
        "wait"@ != "forward"@,
        "wait"@ != "reload"@,
        "wait"@ != "evaluate"@,
        "back"@ != "forward"@,
        "back"@ != "reload"@,
        "back"@ != "evaluate"@,
        "forward"@ != "reload"@,
        "forward"@ != "evaluate"@,
        "reload"@ != "evaluate"@,
{
    reveal_strlit("navigate");
    reveal_strlit("click");
    reveal_strlit("fill");
    reveal_strlit("type");
    reveal_strlit("hover");
    reveal_strlit("snapshot");
    reveal_strlit("screenshot");
    reveal_strlit("close");
    reveal_strlit("gettext");
    reveal_strlit("url");
    reveal_strlit("title");
    reveal_strlit("press");
    reveal_strlit("wait");
    reveal_strlit("back");
    reveal_strlit("forward");
    reveal_strlit("reload");
    reveal_strlit("evaluate");
    assert("navigate"@.len() == 8);
    assert("click"@.len() == 5);
    assert("fill"@.len() == 4);
    assert("type"@.len() == 4);
    assert("hover"@.len() == 5);
    assert("snapshot"@.len() == 8);
    assert("screenshot"@.len() == 10);
    assert("close"@.len() == 5);
    assert("gettext"@.len() == 7);
    assert("url"@.len() == 3);
    assert("title"@.len() == 5);
    assert("press"@.len() == 5);
    assert("wait"@.len() == 4);
    assert("back"@.len() == 4);
    assert("forward"@.len() == 7);
    assert("reload"@.len() == 6);
    assert("evaluate"@.len() == 8);
    assert("navigate"@[0] == 'n');
    assert("snapshot"@[0] == 's');
    assert("evaluate"@[0] == 'e');
    assert("click"@[0] == 'c');
    assert("hover"@[0] == 'h');
    assert("close"@[0] == 'c');
    assert("title"@[0] == 't');
    assert("press"@[0] == 'p');
    assert("fill"@[0] == 'f');
    assert("type"@[0] == 't');
    assert("wait"@[0] == 'w');
    assert("back"@[0] == 'b');
    assert("gettext"@[0] == 'g');
    assert("forward"@[0] == 'f');
    assert("click"@[2] == 'i');
    assert("close"@[2] == 'o');
}

proof fn lemma_db_navigate(v: Seq<char>)
    ensures
        spec_decode_body(
            spec_action_name(ReqModel::Navigate { url: v }),
            spec_encode_body(ReqModel::Navigate { url: v }) + seq!['}'],
        ) == Some(ReqModel::Navigate { url: v }),
{
    reveal_strlit("navigate");
    reveal_strlit("click");
    reveal_strlit("fill");
    reveal_strlit("type");
    reveal_strlit("hover");
    reveal_strlit("snapshot");
    reveal_strlit("screenshot");
    reveal_strlit("close");
    reveal_strlit("gettext");
    reveal_strlit("url");
    reveal_strlit("title");
    reveal_strlit("press");
    reveal_strlit("wait");
    reveal_strlit("back");
    reveal_strlit("forward");
    reveal_strlit("reload");
    reveal_strlit("evaluate");
    lemma_action_words_distinct();
    let t = spec_encode_body(ReqModel::Navigate { url: v }) + seq!['}'];
    assert(t =~= ",\"url\":\""@ + spec_escape(v) + seq!['"'] + seq!['}']);
    lemma_field_tail(",\"url\":\""@, v);
}

proof fn lemma_db_click(v: Seq<char>)
    ensures
        spec_decode_body(
            spec_action_name(ReqModel::Click { selector: v }),
            spec_encode_body(ReqModel::Click { selector: v }) + seq!['}'],
        ) == Some(ReqModel::Click { selector: v }),
{
    reveal_strlit("navigate");
    reveal_strlit("click");
    reveal_strlit("fill");
    reveal_strlit("type");
    reveal_strlit("hover");
    reveal_strlit("snapshot");
    reveal_strlit("screenshot");
    reveal_strlit("close");
    reveal_strlit("gettext");
    reveal_strlit("url");
    reveal_strlit("title");
    reveal_strlit("press");
    reveal_strlit("wait");
    reveal_strlit("back");
    reveal_strlit("forward");
    reveal_strlit("reload");
    reveal_strlit("evaluate");
    lemma_action_words_distinct();
    let t = spec_encode_body(ReqModel::Click { selector: v }) + seq!['}'];
    assert(t =~= ",\"selector\":\""@ + spec_escape(v) + seq!['"'] + seq!['}']);
    lemma_field_tail(",\"selector\":\""@, v);
}

proof fn lemma_db_hover(v: Seq<char>)
    ensures
        spec_decode_body(
            spec_action_name(ReqModel::Hover { selector: v }),
            spec_encode_body(ReqModel::Hover { selector: v }) + seq!['}'],
        ) == Some(ReqModel::Hover { selector: v }),
{
    reveal_strlit("navigate");
    reveal_strlit("click");
    reveal_strlit("fill");
    reveal_strlit("type");
    reveal_strlit("hover");
    reveal_strlit("snapshot");
    reveal_strlit("screenshot");
    reveal_strlit("close");
    reveal_strlit("gettext");
    reveal_strlit("url");
    reveal_strlit("title");
    reveal_strlit("press");
    reveal_strlit("wait");
    reveal_strlit("back");
    reveal_strlit("forward");
    reveal_strlit("reload");
    reveal_strlit("evaluate");
    lemma_action_words_distinct();
    let t = spec_encode_body(ReqModel::Hover { selector: v }) + seq!['}'];
    assert(t =~= ",\"selector\":\""@ + spec_escape(v) + seq!['"'] + seq!['}']);
    lemma_field_tail(",\"selector\":\""@, v);
}

proof fn lemma_db_gettext(v: Seq<char>)
    ensures
        spec_decode_body(
            spec_action_name(ReqModel::GetText { selector: v }),
            spec_encode_body(ReqModel::GetText { selector: v }) + seq!['}'],
        ) == Some(ReqModel::GetText { selector: v }),
{
    reveal_strlit("navigate");
    reveal_strlit("click");
    reveal_strlit("fill");
    reveal_strlit("type");
    reveal_strlit("hover");
    reveal_strlit("snapshot");
    reveal_strlit("screenshot");
    reveal_strlit("close");
    reveal_strlit("gettext");
    reveal_strlit("url");
    reveal_strlit("title");
    reveal_strlit("press");
    reveal_strlit("wait");
    reveal_strlit("back");
    reveal_strlit("forward");
    reveal_strlit("reload");
    reveal_strlit("evaluate");
    lemma_action_words_distinct();
    let t = spec_encode_body(ReqModel::GetText { selector: v }) + seq!['}'];
    assert(t =~= ",\"selector\":\""@ + spec_escape(v) + seq!['"'] + seq!['}']);
    lemma_field_tail(",\"selector\":\""@, v);
}

proof fn lemma_db_press(v: Seq<char>)
    ensures
        spec_decode_body(
            spec_action_name(ReqModel::Press { key: v }),
            spec_encode_body(ReqModel::Press { key: v }) + seq!['}'],
        ) == Some(ReqModel::Press { key: v }),
{
    reveal_strlit("navigate");
    reveal_strlit("click");
    reveal_strlit("fill");
    reveal_strlit("type");
    reveal_strlit("hover");
    reveal_strlit("snapshot");
    reveal_strlit("screenshot");
    reveal_strlit("close");
    reveal_strlit("gettext");
    reveal_strlit("url");
    reveal_strlit("title");
    reveal_strlit("press");
    reveal_strlit("wait");
    reveal_strlit("back");
    reveal_strlit("forward");
    reveal_strlit("reload");
    reveal_strlit("evaluate");
    lemma_action_words_distinct();
    let t = spec_encode_body(ReqModel::Press { key: v }) + seq!['}'];
    assert(t =~= ",\"key\":\""@ + spec_escape(v) + seq!['"'] + seq!['}']);
    lemma_field_tail(",\"key\":\""@, v);
}

proof fn lemma_db_eval(v: Seq<char>)
    ensures
        spec_decode_body(
            spec_action_name(ReqModel::Eval { script: v }),
            spec_encode_body(ReqModel::Eval { script: v }) + seq!['}'],
        ) == Some(ReqModel::Eval { script: v }),
{
    reveal_strlit("navigate");
    reveal_strlit("click");
    reveal_strlit("fill");
    reveal_strlit("type");
    reveal_strlit("hover");
    reveal_strlit("snapshot");
    reveal_strlit("screenshot");
    reveal_strlit("close");
    reveal_strlit("gettext");
    reveal_strlit("url");
    reveal_strlit("title");
    reveal_strlit("press");
    reveal_strlit("wait");
    reveal_strlit("back");
    reveal_strlit("forward");
    reveal_strlit("reload");
    reveal_strlit("evaluate");
    lemma_action_words_distinct();
    let t = spec_encode_body(ReqModel::Eval { script: v }) + seq!['}'];
    assert(t =~= ",\"script\":\""@ + spec_escape(v) + seq!['"'] + seq!['}']);
    lemma_field_tail(",\"script\":\""@, v);
}

proof fn lemma_db_fill(selector: Seq<char>, value: Seq<char>)
    ensures
        spec_decode_body(
            spec_action_name(ReqModel::Fill { selector, value }),
            spec_encode_body(ReqModel::Fill { selector, value }) + seq!['}'],
        ) == Some(ReqModel::Fill { selector, value }),
{
    reveal_strlit("navigate");
    reveal_strlit("click");
    reveal_strlit("fill");
    reveal_strlit("type");
    reveal_strlit("hover");
    reveal_strlit("snapshot");
    reveal_strlit("screenshot");
    reveal_strlit("close");
    reveal_strlit("gettext");
    reveal_strlit("url");
    reveal_strlit("title");
    reveal_strlit("press");
    reveal_strlit("wait");
    reveal_strlit("back");
    reveal_strlit("forward");
    reveal_strlit("reload");
    reveal_strlit("evaluate");
    lemma_action_words_distinct();
    let t = spec_encode_body(ReqModel::Fill { selector, value }) + seq!['}'];
    assert(t =~= ",\"selector\":\""@ + spec_escape(selector) + seq!['"'] + ",\"value\":\""@
        + spec_escape(value) + seq!['"'] + seq!['}']);
    lemma_two_field_tail(",\"selector\":\""@, selector, ",\"value\":\""@, value);
}

proof fn lemma_db_type(selector: Seq<char>, text: Seq<char>)
    ensures
        spec_decode_body(
            spec_action_name(ReqModel::TypeText { selector, text }),
            spec_encode_body(ReqModel::TypeText { selector, text }) + seq!['}'],
        ) == Some(ReqModel::TypeText { selector, text }),
{
    reveal_strlit("navigate");
    reveal_strlit("click");
    reveal_strlit("fill");
    reveal_strlit("type");
    reveal_strlit("hover");
    reveal_strlit("snapshot");
    reveal_strlit("screenshot");
    reveal_strlit("close");
    reveal_strlit("gettext");
    reveal_strlit("url");
    reveal_strlit("title");
    reveal_strlit("press");
    reveal_strlit("wait");
    reveal_strlit("back");
    reveal_strlit("forward");
    reveal_strlit("reload");
    reveal_strlit("evaluate");
    lemma_action_words_distinct();
    let t = spec_encode_body(ReqModel::TypeText { selector, text }) + seq!['}'];
    assert(t =~= ",\"selector\":\""@ + spec_escape(selector) + seq!['"'] + ",\"text\":\""@
        + spec_escape(text) + seq!['"'] + seq!['}']);
    lemma_two_field_tail(",\"selector\":\""@, selector, ",\"text\":\""@, text);
}

proof fn lemma_db_snapshot(
    interactive: bool,
    compact: bool,
    max_depth: Option<i32>,
    selector: Option<Seq<char>>,
)
    ensures
        spec_decode_body(
            spec_action_name(
                ReqModel::Snapshot { interactive, compact, max_depth, selector },
            ),
            spec_encode_body(ReqModel::Snapshot { interactive, compact, max_depth, selector })
                + seq!['}'],
        ) == Some(ReqModel::Snapshot { interactive, compact, max_depth, selector }),
{
    reveal_strlit("navigate");
    reveal_strlit("click");
    reveal_strlit("fill");
    reveal_strlit("type");
    reveal_strlit("hover");
    reveal_strlit("snapshot");
    reveal_strlit("screenshot");
    reveal_strlit("close");
    reveal_strlit("gettext");
    reveal_strlit("url");
    reveal_strlit("title");
    reveal_strlit("press");
    reveal_strlit("wait");
    reveal_strlit("back");
    reveal_strlit("forward");
    reveal_strlit("reload");
    reveal_strlit("evaluate");
    lemma_action_words_distinct();
    lemma_decode_snapshot_case(interactive, compact, max_depth, selector);
}

proof fn lemma_db_screenshot(path: Option<Seq<char>>)
    ensures
        spec_decode_body(
            spec_action_name(ReqModel::Screenshot { path }),
            spec_encode_body(ReqModel::Screenshot { path }) + seq!['}'],
        ) == Some(ReqModel::Screenshot { path }),
{
    reveal_strlit("navigate");
    reveal_strlit("click");
    reveal_strlit("fill");
    reveal_strlit("type");
    reveal_strlit("hover");
    reveal_strlit("snapshot");
    reveal_strlit("screenshot");
    reveal_strlit("close");
    reveal_strlit("gettext");
    reveal_strlit("url");
    reveal_strlit("title");
    reveal_strlit("press");
    reveal_strlit("wait");
    reveal_strlit("back");
    reveal_strlit("forward");
    reveal_strlit("reload");
    reveal_strlit("evaluate");
    lemma_action_words_distinct();
    reveal_strlit(",\"path\":null");
    reveal_strlit(",\"path\":null}");
    reveal_strlit(",\"path\":\"");
    let t = spec_encode_body(ReqModel::Screenshot { path }) + seq!['}'];
    match path {
        Some(p) => {
            assert(t =~= ",\"path\":\""@ + spec_escape(p) + seq!['"'] + seq!['}']);
            assert(t[8] == ",\"path\":\""@[8]);
            assert(t != ",\"path\":null}"@) by {
                assert(",\"path\":null}"@[8] == 'n');
                assert(t[8] == '"');
            }
            lemma_field_tail(",\"path\":\""@, p);
        },
        None => {
            assert(t =~= ",\"path\":null}"@);
        },
    }
}

proof fn lemma_db_wait_timeout(timeout: u64)
    ensures
        spec_decode_body(
            spec_action_name(ReqModel::WaitTimeout { timeout }),
            spec_encode_body(ReqModel::WaitTimeout { timeout }) + seq!['}'],
        ) == Some(ReqModel::WaitTimeout { timeout }),
{
    reveal_strlit("navigate");
    reveal_strlit("click");
    reveal_strlit("fill");
    reveal_strlit("type");
    reveal_strlit("hover");
    reveal_strlit("snapshot");
    reveal_strlit("screenshot");
    reveal_strlit("close");
    reveal_strlit("gettext");
    reveal_strlit("url");
    reveal_strlit("title");
    reveal_strlit("press");
    reveal_strlit("wait");
    reveal_strlit("back");
    reveal_strlit("forward");
    reveal_strlit("reload");
    reveal_strlit("evaluate");
    lemma_action_words_distinct();
    reveal_strlit(",\"timeout\":");
    let kt = ",\"timeout\":"@;
    let digits = spec_u64_digits(timeout as nat);
    let t = spec_encode_body(ReqModel::WaitTimeout { timeout }) + seq!['}'];
    assert(t =~= kt + (digits + seq!['}']));
    lemma_prefix_skip(kt, digits + seq!['}']);
    assert(!is_digit('}'));
    lemma_scan_u64_digits(timeout, seq!['}']);
    assert((digits + seq!['}']).skip(digits.len() as int) =~= seq!['}']);
}

proof fn lemma_db_wait_selector(selector: Seq<char>)
    ensures
        spec_decode_body(
            spec_action_name(ReqModel::WaitSelector { selector }),
            spec_encode_body(ReqModel::WaitSelector { selector }) + seq!['}'],
        ) == Some(ReqModel::WaitSelector { selector }),
{
    reveal_strlit("navigate");
    reveal_strlit("click");
    reveal_strlit("fill");
    reveal_strlit("type");
    reveal_strlit("hover");
    reveal_strlit("snapshot");
    reveal_strlit("screenshot");
    reveal_strlit("close");
    reveal_strlit("gettext");
    reveal_strlit("url");
    reveal_strlit("title");
    reveal_strlit("press");
    reveal_strlit("wait");
    reveal_strlit("back");
    reveal_strlit("forward");
    reveal_strlit("reload");
    reveal_strlit("evaluate");
    lemma_action_words_distinct();
    reveal_strlit(",\"timeout\":");
    reveal_strlit(",\"selector\":\"");
    let kt = ",\"timeout\":"@;
    let ks = ",\"selector\":\""@;
    let t = spec_encode_body(ReqModel::WaitSelector { selector }) + seq!['}'];
    assert(t =~= ks + (spec_escape(selector) + seq!['"'] + seq!['}']));
    assert(t[2] == ks[2]);
    lemma_not_prefix_at(t, kt, 2);
    assert(t =~= ks + spec_escape(selector) + seq!['"'] + seq!['}']);
    lemma_field_tail(ks, selector);
}

proof fn lemma_db_close()
    ensures
        spec_decode_body(
            spec_action_name(ReqModel::Close),
            spec_encode_body(ReqModel::Close) + seq!['}'],
        ) == Some(ReqModel::Close),
{
    reveal_strlit("navigate");
    reveal_strlit("click");
    reveal_strlit("fill");
    reveal_strlit("type");
    reveal_strlit("hover");
    reveal_strlit("snapshot");
    reveal_strlit("screenshot");
    reveal_strlit("close");
    reveal_strlit("gettext");
    reveal_strlit("url");
    reveal_strlit("title");
    reveal_strlit("press");
    reveal_strlit("wait");
    reveal_strlit("back");
    reveal_strlit("forward");
    reveal_strlit("reload");
    reveal_strlit("evaluate");
    lemma_action_words_distinct();
    let t = spec_encode_body(ReqModel::Close) + seq!['}'];
    assert(t =~= seq!['}']);
}

proof fn lemma_db_geturl()
    ensures
        spec_decode_body(
            spec_action_name(ReqModel::GetUrl),
            spec_encode_body(ReqModel::GetUrl) + seq!['}'],
        ) == Some(ReqModel::GetUrl),
{
    reveal_strlit("navigate");
    reveal_strlit("click");
    reveal_strlit("fill");
    reveal_strlit("type");
    reveal_strlit("hover");
    reveal_strlit("snapshot");
    reveal_strlit("screenshot");
    reveal_strlit("close");
    reveal_strlit("gettext");
    reveal_strlit("url");
    reveal_strlit("title");
    reveal_strlit("press");
    reveal_strlit("wait");
    reveal_strlit("back");
    reveal_strlit("forward");
    reveal_strlit("reload");
    reveal_strlit("evaluate");
    lemma_action_words_distinct();
    let t = spec_encode_body(ReqModel::GetUrl) + seq!['}'];
    assert(t =~= seq!['}']);
}

proof fn lemma_db_gettitle()
    ensures
        spec_decode_body(
            spec_action_name(ReqModel::GetTitle),
            spec_encode_body(ReqModel::GetTitle) + seq!['}'],
        ) == Some(ReqModel::GetTitle),
{
    reveal_strlit("navigate");
    reveal_strlit("click");
    reveal_strlit("fill");
    reveal_strlit("type");
    reveal_strlit("hover");
    reveal_strlit("snapshot");
    reveal_strlit("screenshot");
    reveal_strlit("close");
    reveal_strlit("gettext");
    reveal_strlit("url");
    reveal_strlit("title");
    reveal_strlit("press");
    reveal_strlit("wait");
    reveal_strlit("back");
    reveal_strlit("forward");
    reveal_strlit("reload");
    reveal_strlit("evaluate");
    lemma_action_words_distinct();
    let t = spec_encode_body(ReqModel::GetTitle) + seq!['}'];
    assert(t =~= seq!['}']);
}

proof fn lemma_db_back()
    ensures
        spec_decode_body(
            spec_action_name(ReqModel::Back),
            spec_encode_body(ReqModel::Back) + seq!['}'],
        ) == Some(ReqModel::Back),
{
    reveal_strlit("navigate");
    reveal_strlit("click");
    reveal_strlit("fill");
    reveal_strlit("type");
    reveal_strlit("hover");
    reveal_strlit("snapshot");
    reveal_strlit("screenshot");
    reveal_strlit("close");
    reveal_strlit("gettext");
    reveal_strlit("url");
    reveal_strlit("title");
    reveal_strlit("press");
    reveal_strlit("wait");
    reveal_strlit("back");
    reveal_strlit("forward");
    reveal_strlit("reload");
    reveal_strlit("evaluate");
    lemma_action_words_distinct();
    let t = spec_encode_body(ReqModel::Back) + seq!['}'];
    assert(t =~= seq!['}']);
}

proof fn lemma_db_forward()
    ensures
        spec_decode_body(
            spec_action_name(ReqModel::Forward),
            spec_encode_body(ReqModel::Forward) + seq!['}'],
        ) == Some(ReqModel::Forward),
{
    reveal_strlit("navigate");
    reveal_strlit("click");
    reveal_strlit("fill");
    reveal_strlit("type");
    reveal_strlit("hover");
    reveal_strlit("snapshot");
    reveal_strlit("screenshot");
    reveal_strlit("close");
    reveal_strlit("gettext");
    reveal_strlit("url");
    reveal_strlit("title");
    reveal_strlit("press");
    reveal_strlit("wait");
    reveal_strlit("back");
    reveal_strlit("forward");
    reveal_strlit("reload");
    reveal_strlit("evaluate");
    lemma_action_words_distinct();
    let t = spec_encode_body(ReqModel::Forward) + seq!['}'];
    assert(t =~= seq!['}']);
}

proof fn lemma_db_reload()
    ensures
        spec_decode_body(
            spec_action_name(ReqModel::Reload),
            spec_encode_body(ReqModel::Reload) + seq!['}'],
        ) == Some(ReqModel::Reload),
{
    reveal_strlit("navigate");
    reveal_strlit("click");
    reveal_strlit("fill");
    reveal_strlit("type");
    reveal_strlit("hover");
    reveal_strlit("snapshot");
    reveal_strlit("screenshot");
    reveal_strlit("close");
    reveal_strlit("gettext");
    reveal_strlit("url");
    reveal_strlit("title");
    reveal_strlit("press");
    reveal_strlit("wait");
    reveal_strlit("back");
    reveal_strlit("forward");
    reveal_strlit("reload");
    reveal_strlit("evaluate");
    lemma_action_words_distinct();
    let t = spec_encode_body(ReqModel::Reload) + seq!['}'];
    assert(t =~= seq!['}']);
}

proof fn lemma_decode_body(m: ReqModel)
    ensures
        spec_decode_body(spec_action_name(m), spec_encode_body(m) + seq!['}']) == Some(m),
{
    match m {
        ReqModel::Navigate { url } => lemma_db_navigate(url),
        ReqModel::Click { selector } => lemma_db_click(selector),
        ReqModel::Fill { selector, value } => lemma_db_fill(selector, value),
        ReqModel::TypeText { selector, text } => lemma_db_type(selector, text),
        ReqModel::Hover { selector } => lemma_db_hover(selector),
        ReqModel::Snapshot { interactive, compact, max_depth, selector } => lemma_db_snapshot(
            interactive,
            compact,
            max_depth,
            selector,
        ),
        ReqModel::Screenshot { path } => lemma_db_screenshot(path),
        ReqModel::Close => lemma_db_close(),
        ReqModel::GetText { selector } => lemma_db_gettext(selector),
        ReqModel::GetUrl => lemma_db_geturl(),
        ReqModel::GetTitle => lemma_db_gettitle(),
        ReqModel::Press { key } => lemma_db_press(key),
        ReqModel::WaitTimeout { timeout } => lemma_db_wait_timeout(timeout),
        ReqModel::WaitSelector { selector } => lemma_db_wait_selector(selector),
        ReqModel::Back => lemma_db_back(),
        ReqModel::Forward => lemma_db_forward(),
        ReqModel::Reload => lemma_db_reload(),
        ReqModel::Eval { script } => lemma_db_eval(script),
    }
}

/// Round trip: an encoded request decodes back, through the same schema,
/// to exactly the id and the request it was encoded from — every field,
/// the id included, is reproduced.
pub proof fn lemma_round_trip(id: Seq<char>, m: ReqModel)
    ensures
        spec_decode(spec_encode(id, m)) == Some((id, m)),
{
    reveal_strlit("{\"id\":\"");
    reveal_strlit("\",\"action\":\"");
    reveal_strlit(",\"action\":\"");
    let l0 = "{\"id\":\""@;
    let l1 = "\",\"action\":\""@;
    let la = ",\"action\":\""@;
    let name = spec_action_name(m);
    let body = spec_encode_body(m);
    let line = spec_encode(id, m);
    assert(l1 =~= seq!['"'] + la);
    let rest_a = la + spec_escape(name) + seq!['"'] + body + seq!['}'];
    let t1 = spec_escape(id) + seq!['"'] + rest_a;
    assert(line =~= l0 + t1);
    lemma_prefix_skip(l0, t1);
    lemma_scan_escape(id, rest_a);
    assert(t1.skip(spec_escape(id).len() as int + 1) =~= rest_a);
    let t3 = spec_escape(name) + seq!['"'] + (body + seq!['}']);
    assert(rest_a =~= la + t3);
    lemma_prefix_skip(la, t3);
    lemma_scan_escape(name, body + seq!['}']);
    assert(t3.skip(spec_escape(name).len() as int + 1) =~= body + seq!['}']);
    lemma_decode_body(m);
}

/// No piece of an encoded body holds a raw newline.
#[verifier::rlimit(100)]
proof fn lemma_body_line_safe(m: ReqModel)
    ensures
        line_safe(spec_encode_body(m)),
{
    reveal_strlit(",\"url\":\"");
    reveal_strlit(",\"selector\":\"");
    reveal_strlit(",\"value\":\"");
    reveal_strlit(",\"text\":\"");
    reveal_strlit(",\"interactive\":true");
    reveal_strlit(",\"compact\":true");
    reveal_strlit(",\"maxDepth\":");
    reveal_strlit(",\"path\":\"");
    reveal_strlit(",\"key\":\"");
    reveal_strlit(",\"timeout\":");
    reveal_strlit(",\"script\":\"");
    assert(line_safe(",\"url\":\""@));
    assert(line_safe(",\"selector\":\""@));
    assert(line_safe(",\"value\":\""@));
    assert(line_safe(",\"text\":\""@));
    assert(line_safe(",\"interactive\":true"@));
    assert(line_safe(",\"compact\":true"@));
    assert(line_safe(",\"maxDepth\":"@));
    assert(line_safe(",\"path\":\""@));
    assert(line_safe(",\"key\":\""@));
    assert(line_safe(",\"timeout\":"@));
    assert(line_safe(",\"script\":\""@));
    assert(line_safe(seq!['"']));
    assert(line_safe(Seq::<char>::empty()));
    match m {
        ReqModel::Navigate { url } => {
            lemma_escape_line_safe(url);
            lemma_line_safe_concat(",\"url\":\""@, spec_escape(url));
            lemma_line_safe_concat(",\"url\":\""@ + spec_escape(url), seq!['"']);
        },
        ReqModel::Click { selector } => {
            lemma_escape_line_safe(selector);
            lemma_line_safe_concat(",\"selector\":\""@, spec_escape(selector));
            lemma_line_safe_concat(",\"selector\":\""@ + spec_escape(selector), seq!['"']);
        },
        ReqModel::Fill { selector, value } => {
            lemma_escape_line_safe(selector);
            lemma_line_safe_concat(",\"selector\":\""@, spec_escape(selector));
            lemma_line_safe_concat(",\"selector\":\""@ + spec_escape(selector), seq!['"']);
            let a = ",\"selector\":\""@ + spec_escape(selector) + seq!['"'];
            lemma_escape_line_safe(value);
            lemma_line_safe_concat(a, ",\"value\":\""@);
            lemma_line_safe_concat(a + ",\"value\":\""@, spec_escape(value));
            lemma_line_safe_concat(a + ",\"value\":\""@ + spec_escape(value), seq!['"']);
        },
        ReqModel::TypeText { selector, text } => {
            lemma_escape_line_safe(selector);
            lemma_line_safe_concat(",\"selector\":\""@, spec_escape(selector));
            lemma_line_safe_concat(",\"selector\":\""@ + spec_escape(selector), seq!['"']);
            let a = ",\"selector\":\""@ + spec_escape(selector) + seq!['"'];
            lemma_escape_line_safe(text);
            lemma_line_safe_concat(a, ",\"text\":\""@);
            lemma_line_safe_concat(a + ",\"text\":\""@, spec_escape(text));
            lemma_line_safe_concat(a + ",\"text\":\""@ + spec_escape(text), seq!['"']);
        },
        ReqModel::Hover { selector } => {
            lemma_escape_line_safe(selector);
            lemma_line_safe_concat(",\"selector\":\""@, spec_escape(selector));
            lemma_line_safe_concat(",\"selector\":\""@ + spec_escape(selector), seq!['"']);
        },
        ReqModel::Snapshot { interactive, compact, max_depth, selector } => {
            let bi: Seq<char> = if interactive {
                ",\"interactive\":true"@
            } else {
                Seq::empty()
            };
            let bc: Seq<char> = if compact {
                ",\"compact\":true"@
            } else {
                Seq::empty()
            };
            let bd: Seq<char> = match max_depth {
                Some(n) => ",\"maxDepth\":"@ + spec_i32_str(n as int),
                None => Seq::empty(),
            };
            let bs: Seq<char> = match selector {
                Some(v) => ",\"selector\":\""@ + spec_escape(v) + seq!['"'],
                None => Seq::empty(),
            };
            match max_depth {
                Some(n) => {
                    lemma_i32_str_line_safe(n as int);
                    lemma_line_safe_concat(",\"maxDepth\":"@, spec_i32_str(n as int));
                },
                None => {},
            }
            match selector {
                Some(v) => {
                    lemma_escape_line_safe(v);
                    lemma_line_safe_concat(",\"selector\":\""@, spec_escape(v));
                    lemma_line_safe_concat(",\"selector\":\""@ + spec_escape(v), seq!['"']);
                },
                None => {},
            }
            lemma_line_safe_concat(bi, bc);
            lemma_line_safe_concat(bi + bc, bd);
            lemma_line_safe_concat(bi + bc + bd, bs);
        },
        ReqModel::Screenshot { path } => {
            match path {
                Some(pv) => {
                    lemma_escape_line_safe(pv);
                    lemma_line_safe_concat(",\"path\":\""@, spec_escape(pv));
                    lemma_line_safe_concat(",\"path\":\""@ + spec_escape(pv), seq!['"']);
                },
                None => {
                    reveal_strlit(",\"path\":null");
                    assert(line_safe(",\"path\":null"@));
                },
            }
        },
        ReqModel::Close => {},
        ReqModel::GetText { selector } => {
            lemma_escape_line_safe(selector);
            lemma_line_safe_concat(",\"selector\":\""@, spec_escape(selector));
            lemma_line_safe_concat(",\"selector\":\""@ + spec_escape(selector), seq!['"']);
        },
        ReqModel::GetUrl => {},
        ReqModel::GetTitle => {},
        ReqModel::Press { key } => {
            lemma_escape_line_safe(key);
            lemma_line_safe_concat(",\"key\":\""@, spec_escape(key));
            lemma_line_safe_concat(",\"key\":\""@ + spec_escape(key), seq!['"']);
        },
        ReqModel::WaitTimeout { timeout } => {
            lemma_digits_line_safe(timeout as nat);
            lemma_line_safe_concat(",\"timeout\":"@, spec_u64_digits(timeout as nat));
        },
        ReqModel::WaitSelector { selector } => {
            lemma_escape_line_safe(selector);
            lemma_line_safe_concat(",\"selector\":\""@, spec_escape(selector));
            lemma_line_safe_concat(",\"selector\":\""@ + spec_escape(selector), seq!['"']);
        },
        ReqModel::Back => {},
        ReqModel::Forward => {},
        ReqModel::Reload => {},
        ReqModel::Eval { script } => {
            lemma_escape_line_safe(script);
            lemma_line_safe_concat(",\"script\":\""@, spec_escape(script));
            lemma_line_safe_concat(",\"script\":\""@ + spec_escape(script), seq!['"']);
        },
    }
}

/// One request is one line: the encoded form never holds a raw newline,
/// so the newline that `frame_request` appends is the frame's only one.
pub proof fn lemma_encode_line_safe(id: Seq<char>, m: ReqModel)
    ensures
        line_safe(spec_encode(id, m)),
{
    reveal_strlit("{\"id\":\"");
    reveal_strlit("\",\"action\":\"");
    let l0 = "{\"id\":\""@;
    let l1 = "\",\"action\":\""@;
    assert(line_safe(l0));
    assert(line_safe(l1));
    assert(line_safe(seq!['"']));
    assert(line_safe(seq!['}']));
    lemma_escape_line_safe(id);
    lemma_escape_line_safe(spec_action_name(m));
    lemma_body_line_safe(m);
    lemma_line_safe_concat(l0, spec_escape(id));
    lemma_line_safe_concat(l0 + spec_escape(id), l1);
    lemma_line_safe_concat(l0 + spec_escape(id) + l1, spec_escape(spec_action_name(m)));
    lemma_line_safe_concat(
        l0 + spec_escape(id) + l1 + spec_escape(spec_action_name(m)),
        seq!['"'],
    );
    lemma_line_safe_concat(
        l0 + spec_escape(id) + l1 + spec_escape(spec_action_name(m)) + seq!['"'],
        spec_encode_body(m),
    );
    lemma_line_safe_concat(
        l0 + spec_escape(id) + l1 + spec_escape(spec_action_name(m)) + seq!['"']
            + spec_encode_body(m),
        seq!['}'],
    );
}

/// One framed request: the encoded line and its terminating newline,
/// handed to the transport as a single unit.
pub fn frame_request(id: &String, req: &Request) -> (r: String)
    ensures
        r@ == spec_encode(id@, req@) + seq!['\n'],
{
    let mut out = encode_request(id, req);
    push_char(&mut out, '\n');
    proof {
        assert(out@ =~= spec_encode(id@, req@) + seq!['\n']);
    }
    out
}

/// Checks one reply frame: the reply must be a complete
/// newline-terminated line, and the frame is what stands before the
/// newline. A connection closed before the newline yields no frame.
pub fn extract_frame(line: &str) -> (r: Option<String>)
    ensures
        match r {
            Some(v) => line@.len() > 0 && line@.last() == '\n' && v@ == line@.drop_last(),
            None => line@.len() == 0 || line@.last() != '\n',
        },
{
    let len = line.unicode_len();
    if len == 0 {
        return None;
    }
    if line.get_char(len - 1) != '\n' {
        return None;
    }
    let inner = line.substring_char(0, len - 1);
    proof {
        assert(inner@ =~= line@.drop_last());
    }
    Some(String::from_str(inner))
}

/// The one consistent machine-mode failure shape, used for every failure
/// that happens before a reply is received: success false and the error
/// text, escaped like any other wire string.
pub fn failure_json(error: &str) -> (r: String)
    ensures
        r@ == "{\"success\":false,\"error\":\""@ + spec_escape(error@) + "\"}"@,
{
    let mut out = String::from_str("{\"success\":false,\"error\":\"");
    escape_str_into(&mut out, error);
    out.append("\"}");
    proof {
        assert(out@ =~= "{\"success\":false,\"error\":\""@ + spec_escape(error@) + "\"}"@);
    }
    out
}

} // verus!
