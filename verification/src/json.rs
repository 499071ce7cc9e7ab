//! JSON framing for task records: printing a record or a list of records,
//! and reading a record back from request text. The grammar accepted and
//! produced is stated exactly by the spec functions here.

use vstd::prelude::*;
use vstd::string::StrSliceExecFns;
use vstd::string::StringExecFns;
use crate::num::dec_digits;
use crate::record::{Todo, TodoView};

verus! {

/// The hexadecimal digit character for a value below sixteen.
pub open spec fn hex_digit(d: nat) -> char {
    if d < 10 {
        crate::num::digit_char(d)
    } else if d == 10 {
        'a'
    } else if d == 11 {
        'b'
    } else if d == 12 {
        'c'
    } else if d == 13 {
        'd'
    } else if d == 14 {
        'e'
    } else {
        'f'
    }
}

/// How one character of a title is written inside a JSON string.
pub open spec fn escape_char(c: char) -> Seq<char> {
    if c == '"' {
        "\\\""@
    } else if c == '\\' {
        "\\\\"@
    } else if c == '\n' {
        "\\n"@
    } else if c == '\t' {
        "\\t"@
    } else if c == '\r' {
        "\\r"@
    } else if (c as u32) < 32 {
        "\\u00"@ + seq![hex_digit((c as u32 / 16) as nat), hex_digit((c as u32 % 16) as nat)]
    } else {
        seq![c]
    }
}

/// A title written inside a JSON string, character by character.
pub open spec fn escape_string(s: Seq<char>) -> Seq<char>
    decreases s.len(),
{
    if s.len() == 0 {
        Seq::empty()
    } else {
        escape_string(s.drop_last()) + escape_char(s.last())
    }
}

/// The JSON object text for one record.
pub open spec fn todo_json(t: TodoView) -> Seq<char> {
    "{\"id\":"@ + dec_digits(t.id as nat) + ",\"priority\":"@ + dec_digits(t.priority as nat)
        + ",\"title\":\""@ + escape_string(t.title) + "\"}"@
}

/// The members of a JSON array of records, comma separated.
pub open spec fn list_json_inner(ts: Seq<TodoView>) -> Seq<char>
    decreases ts.len(),
{
    if ts.len() == 0 {
        Seq::empty()
    } else if ts.len() == 1 {
        todo_json(ts[0])
    } else {
        list_json_inner(ts.drop_last()) + ","@ + todo_json(ts.last())
    }
}

/// The JSON array text for a list of records.
pub open spec fn list_json(ts: Seq<TodoView>) -> Seq<char> {
    "["@ + list_json_inner(ts) + "]"@
}

/// The hexadecimal digit character, as executable code.
fn hex_to_char(d: u32) -> (c: char)
    requires
        d < 16,
    ensures
        c == hex_digit(d as nat),
{
    if d < 10 {
        crate::num::digit_to_char(d as usize)
    } else if d == 10 {
        'a'
    } else if d == 11 {
        'b'
    } else if d == 12 {
        'c'
    } else if d == 13 {
        'd'
    } else if d == 14 {
        'e'
    } else {
        'f'
    }
}

/// Writes a title the way it stands inside a JSON string.
pub fn escape(s: &str) -> (r: String)
    ensures
        r@ == escape_string(s@),
{
    let n = s.unicode_len();
    let mut out = String::new();
    proof {
        assert(out@ =~= escape_string(s@.subrange(0, 0)));
    }
    let mut i: usize = 0;
    while i < n
        invariant
            i <= n,
            n == s@.len(),
            out@ == escape_string(s@.subrange(0, i as int)),
        decreases n - i,
    {
        let ghost out0 = out@;
        let c = s.get_char(i);
        if c == '"' {
            out.append("\\\"");
        } else if c == '\\' {
            out.append("\\\\");
        } else if c == '\n' {
            out.append("\\n");
        } else if c == '\t' {
            out.append("\\t");
        } else if c == '\r' {
            out.append("\\r");
        } else if (c as u32) < 32 {
            out.append("\\u00");
            out.push(hex_to_char(c as u32 / 16));
            out.push(hex_to_char(c as u32 % 16));
            proof {
                assert(out@ =~= out0 + escape_char(c));
            }
        } else {
            out.push(c);
            proof {
                assert(out@ =~= out0 + seq![c]);
            }
        }
        proof {
            assert(s@.subrange(0, i as int + 1).drop_last() =~= s@.subrange(0, i as int));
            assert(s@.subrange(0, i as int + 1).last() == s@[i as int]);
            assert(out@ =~= escape_string(s@.subrange(0, i as int + 1)));
        }
        i += 1;
    }
    proof {
        assert(s@.subrange(0, n as int) =~= s@);
    }
    out
}

/// Prints one record as its JSON object text.
pub fn todo_to_json(t: &Todo) -> (r: String)
    ensures
        r@ == todo_json(t@),
{
    let mut s = String::new();
    s.append("{\"id\":");
    let ns = crate::num::usize_to_string(t.id);
    s.append(ns.as_str());
    s.append(",\"priority\":");
    let ps = crate::num::usize_to_string(t.priority.get());
    s.append(ps.as_str());
    s.append(",\"title\":\"");
    let es = escape(t.title.as_str());
    s.append(es.as_str());
    s.append("\"}");
    proof {
        assert(s@ =~= todo_json(t@));
    }
    s
}

/// Prints a list of records as its JSON array text; an empty list prints
/// as an empty array.
pub fn todos_to_json(todos: &Vec<Todo>) -> (r: String)
    ensures
        r@ == list_json(crate::store::views_of_list(todos@)),
{
    let ghost views = crate::store::views_of_list(todos@);
    let mut s = String::new();
    s.append("[");
    proof {
        assert(s@ =~= "["@ + list_json_inner(views.subrange(0, 0)));
    }
    let n = todos.len();
    let mut i: usize = 0;
    while i < n
        invariant
            i <= n,
            n == todos@.len(),
            views == crate::store::views_of_list(todos@),
            views.len() == n,
            s@ == "["@ + list_json_inner(views.subrange(0, i as int)),
        decreases n - i,
    {
        if i > 0 {
            s.append(",");
        }
        let piece = todo_to_json(&todos[i]);
        s.append(piece.as_str());
        proof {
            assert(views[i as int] == todos@[i as int]@);
            assert(views.subrange(0, i as int + 1).drop_last() =~= views.subrange(0, i as int));
            assert(views.subrange(0, i as int + 1).last() == views[i as int]);
            assert(s@ =~= "["@ + list_json_inner(views.subrange(0, i as int + 1)));
        }
        i += 1;
    }
    s.append("]");
    proof {
        assert(views.subrange(0, n as int) =~= views);
        assert(s@ =~= list_json(views));
    }
    s
}

/// True of the whitespace characters JSON allows between tokens.
pub open spec fn is_ws(c: char) -> bool {
    c == ' ' || c == '\t' || c == '\n' || c == '\r'
}

/// The first position at or after `i` that does not hold whitespace.
pub open spec fn skip_ws(s: Seq<char>, i: int) -> int
    decreases s.len() - i,
{
    if 0 <= i < s.len() && is_ws(s[i]) {
        skip_ws(s, i + 1)
    } else {
        i
    }
}

/// The first position at or after `i` that does not hold a digit.
pub open spec fn digit_run_end(s: Seq<char>, i: int) -> int
    decreases s.len() - i,
{
    if 0 <= i < s.len() && crate::num::is_digit(s[i]) {
        digit_run_end(s, i + 1)
    } else {
        i
    }
}

/// A digit run never leaves the sequence.
pub proof fn lemma_digit_run_end_bounds(s: Seq<char>, i: int)
    requires
        0 <= i <= s.len(),
    ensures
        i <= digit_run_end(s, i) <= s.len(),
    decreases s.len() - i,
{
    if i < s.len() && crate::num::is_digit(s[i]) {
        lemma_digit_run_end_bounds(s, i + 1);
    }
}

/// A number at position `i`: one or more digits, read in base ten.
pub open spec fn parse_number_at(s: Seq<char>, i: int) -> Option<(nat, int)> {
    let j = digit_run_end(s, i);
    if i < j {
        Some((crate::num::dec_value(s.subrange(i, j)), j))
    } else {
        None
    }
}

/// The character an escape sequence stands for, if the escape is accepted.
pub open spec fn unescape(c: char) -> Option<char> {
    if c == '"' {
        Some('"')
    } else if c == '\\' {
        Some('\\')
    } else if c == '/' {
        Some('/')
    } else if c == 'n' {
        Some('\n')
    } else if c == 't' {
        Some('\t')
    } else if c == 'r' {
        Some('\r')
    } else if c == 'b' {
        Some('\u{0008}')
    } else if c == 'f' {
        Some('\u{000c}')
    } else {
        None
    }
}

/// The body of a JSON string starting at `i` (just past the opening quote):
/// the characters it denotes and the position past the closing quote. Raw
/// control characters and unknown escapes are refused.
pub open spec fn parse_string_body(s: Seq<char>, i: int) -> Option<(Seq<char>, int)>
    decreases s.len() - i,
{
    if i < 0 || i >= s.len() {
        None
    } else if s[i] == '"' {
        Some((Seq::empty(), i + 1))
    } else if s[i] == '\\' {
        if i + 1 < s.len() {
            match (unescape(s[i + 1]), parse_string_body(s, i + 2)) {
                (Some(u), Some(rj)) => Some((seq![u] + rj.0, rj.1)),
                _ => None,
            }
        } else {
            None
        }
    } else if (s[i] as u32) < 32 {
        None
    } else {
        match parse_string_body(s, i + 1) {
            Some(rj) => Some((seq![s[i]] + rj.0, rj.1)),
            None => None,
        }
    }
}

/// A record in the making: the fields seen so far.
pub ghost struct PartialTodo {
    pub id: Option<int>,
    pub priority: Option<int>,
    pub title: Option<Seq<char>>,
}

/// No field seen yet.
pub open spec fn empty_partial() -> PartialTodo {
    PartialTodo { id: None, priority: None, title: None }
}

/// One `"key": value` member starting at `i`. Each key may appear once; an
/// unknown key, a repeated key, a wrongly typed value, an id that does not
/// fit, or a priority outside 1 to 5 is refused.
pub open spec fn parse_member(s: Seq<char>, i: int, p: PartialTodo) -> Option<(PartialTodo, int)> {
    let k0 = skip_ws(s, i);
    if !(0 <= k0 < s.len() && s[k0] == '"') {
        None
    } else {
        match parse_string_body(s, k0 + 1) {
            None => None,
            Some(kj) => {
                let k2 = skip_ws(s, kj.1);
                if !(0 <= k2 < s.len() && s[k2] == ':') {
                    None
                } else {
                    let k3 = skip_ws(s, k2 + 1);
                    if kj.0 == "id"@ {
                        if p.id is Some {
                            None
                        } else {
                            match parse_number_at(s, k3) {
                                None => None,
                                Some(vj) => if vj.0 <= usize::MAX as nat {
                                    Some(
                                        (
                                            PartialTodo {
                                                id: Some(vj.0 as int),
                                                priority: p.priority,
                                                title: p.title,
                                            },
                                            vj.1,
                                        ),
                                    )
                                } else {
                                    None
                                },
                            }
                        }
                    } else if kj.0 == "priority"@ {
                        if p.priority is Some {
                            None
                        } else {
                            match parse_number_at(s, k3) {
                                None => None,
                                Some(vj) => if 1 <= vj.0 <= 5 {
                                    Some(
                                        (
                                            PartialTodo {
                                                id: p.id,
                                                priority: Some(vj.0 as int),
                                                title: p.title,
                                            },
                                            vj.1,
                                        ),
                                    )
                                } else {
                                    None
                                },
                            }
                        }
                    } else if kj.0 == "title"@ {
                        if p.title is Some {
                            None
                        } else if !(0 <= k3 < s.len() && s[k3] == '"') {
                            None
                        } else {
                            match parse_string_body(s, k3 + 1) {
                                None => None,
                                Some(tj) => Some(
                                    (
                                        PartialTodo {
                                            id: p.id,
                                            priority: p.priority,
                                            title: Some(tj.0),
                                        },
                                        tj.1,
                                    ),
                                ),
                            }
                        }
                    } else {
                        None
                    }
                }
            },
        }
    }
}

/// The members of the record object from `i` up to and including the
/// closing brace.
pub open spec fn parse_members(s: Seq<char>, i: int, p: PartialTodo, fuel: nat) -> Option<
    (PartialTodo, int),
>
    decreases fuel,
{
    match parse_member(s, i, p) {
        None => None,
        Some(pj) => {
            let j2 = skip_ws(s, pj.1);
            if 0 <= j2 < s.len() && s[j2] == '}' {
                Some((pj.0, j2 + 1))
            } else if 0 <= j2 < s.len() && s[j2] == ',' && fuel > 0 {
                parse_members(s, j2 + 1, pj.0, (fuel - 1) as nat)
            } else {
                None
            }
        },
    }
}

/// A finished record: all three fields present and in range.
pub open spec fn finish_todo(p: PartialTodo) -> Option<TodoView> {
    match (p.id, p.priority, p.title) {
        (Some(id), Some(pr), Some(t)) => if 0 <= id <= usize::MAX as int && 1 <= pr <= 5 {
            Some(TodoView { id: id, priority: pr, title: t })
        } else {
            None
        },
        _ => None,
    }
}

/// The record a request body denotes: one JSON object holding exactly the
/// keys id, priority and title, with nothing but whitespace around it.
pub open spec fn parse_todo_text(s: Seq<char>) -> Option<TodoView> {
    let i0 = skip_ws(s, 0);
    if !(0 <= i0 < s.len() && s[i0] == '{') {
        None
    } else {
        match parse_members(s, i0 + 1, empty_partial(), 2) {
            None => None,
            Some(pj) => if skip_ws(s, pj.1) == s.len() {
                finish_todo(pj.0)
            } else {
                None
            },
        }
    }
}

/// True when the character at `j` is whitespace.
fn ws_at(s: &str, j: usize) -> (r: bool)
    requires
        j < s@.len(),
    ensures
        r == is_ws(s@[j as int]),
{
    let c = s.get_char(j);
    c == ' ' || c == '\t' || c == '\n' || c == '\r'
}

/// Walks past whitespace.
fn skip_ws_exec(s: &str, i: usize) -> (r: usize)
    requires
        i as int <= s@.len(),
    ensures
        r as int == skip_ws(s@, i as int),
        i <= r,
        r as int <= s@.len(),
{
    let n = s.unicode_len();
    let mut j = i;
    while j < n && ws_at(s, j)
        invariant
            i <= j <= n,
            n == s@.len(),
            skip_ws(s@, i as int) == skip_ws(s@, j as int),
        decreases n - j,
    {
        j += 1;
    }
    j
}

/// Reads a digit run as a number, refusing one whose value does not fit.
fn parse_number_exec(s: &str, i: usize) -> (r: Option<(usize, usize)>)
    requires
        i as int <= s@.len(),
    ensures
        (match parse_number_at(s@, i as int) {
            None => r is None,
            Some(vj) => if vj.0 <= usize::MAX as nat {
                r matches Some(p) && p.0 as nat == vj.0 && p.1 as int == vj.1
            } else {
                r is None
            },
        }),
        r matches Some(p) ==> i < p.1 && p.1 as int <= s@.len(),
{
    let n = s.unicode_len();
    let mut j = i;
    let mut acc: usize = 0;
    while j < n && crate::num::digit_at(s, j)
        invariant
            i <= j <= n,
            n == s@.len(),
            digit_run_end(s@, i as int) == digit_run_end(s@, j as int),
            acc as nat == crate::num::dec_value(s@.subrange(i as int, j as int)),
        decreases n - j,
    {
        let c = s.get_char(j);
        let d = (c as u32 - 48) as usize;
        let ghost pre2 = s@.subrange(i as int, j as int + 1);
        proof {
            assert(pre2.drop_last() =~= s@.subrange(i as int, j as int));
            assert(pre2.last() == s@[j as int]);
        }
        if acc > (usize::MAX - d) / 10 {
            proof {
                assert(acc as nat * 10 + d as nat > usize::MAX as nat) by (nonlinear_arith)
                    requires
                        acc as nat > ((usize::MAX - d) as nat) / 10,
                        d < 10,
                ;
                lemma_digit_run_end_bounds(s@, j as int + 1);
                let e = digit_run_end(s@, i as int);
                crate::num::lemma_dec_value_extend(s@, i as int, j as int + 1, e);
            }
            return None;
        }
        proof {
            assert(acc as nat * 10 + d as nat <= usize::MAX as nat) by (nonlinear_arith)
                requires
                    acc as nat <= ((usize::MAX - d) as nat) / 10,
                    d < 10,
            ;
        }
        acc = acc * 10 + d;
        j += 1;
    }
    if j == i {
        return None;
    }
    Some((acc, j))
}

/// The character an escape stands for, as executable code.
fn unescape_exec(c: char) -> (r: Option<char>)
    ensures
        r == unescape(c),
{
    if c == '"' {
        Some('"')
    } else if c == '\\' {
        Some('\\')
    } else if c == '/' {
        Some('/')
    } else if c == 'n' {
        Some('\n')
    } else if c == 't' {
        Some('\t')
    } else if c == 'r' {
        Some('\r')
    } else if c == 'b' {
        Some('\u{0008}')
    } else if c == 'f' {
        Some('\u{000c}')
    } else {
        None
    }
}

/// Reads a JSON string body from just past the opening quote.
fn parse_string_exec(s: &str, i: usize) -> (r: Option<(String, usize)>)
    requires
        i as int <= s@.len(),
    ensures
        (match parse_string_body(s@, i as int) {
            None => r is None,
            Some(tj) => r matches Some(p) && p.0@ == tj.0 && p.1 as int == tj.1,
        }),
        r matches Some(p) ==> p.1 as int <= s@.len(),
{
    let n = s.unicode_len();
    let mut acc = String::new();
    let mut k = i;
    loop
        invariant
            i <= k <= n,
            n == s@.len(),
            (match parse_string_body(s@, k as int) {
                Some(rj) => parse_string_body(s@, i as int) == Some((acc@ + rj.0, rj.1)),
                None => parse_string_body(s@, i as int) is None,
            }),
        decreases n - k,
    {
        if k >= n {
            return None;
        }
        let c = s.get_char(k);
        if c == '"' {
            proof {
                assert(acc@ + Seq::<char>::empty() =~= acc@);
            }
            return Some((acc, k + 1));
        }
        if c == '\\' {
            if k + 1 >= n {
                return None;
            }
            let e = s.get_char(k + 1);
            match unescape_exec(e) {
                Some(u) => {
                    let ghost acc0 = acc@;
                    acc.push(u);
                    proof {
                        match parse_string_body(s@, k as int + 2) {
                            Some(rj) => {
                                assert((acc0 + seq![u]) + rj.0 =~= acc0 + (seq![u] + rj.0));
                            },
                            None => {},
                        }
                    }
                    k = k + 2;
                },
                None => {
                    return None;
                },
            }
        } else if (c as u32) < 32 {
            return None;
        } else {
            let ghost acc0 = acc@;
            acc.push(c);
            proof {
                match parse_string_body(s@, k as int + 1) {
                    Some(rj) => {
                        assert((acc0 + seq![c]) + rj.0 =~= acc0 + (seq![c] + rj.0));
                    },
                    None => {},
                }
            }
            k = k + 1;
        }
    }
}

/// The fields seen so far while reading a record object.
struct Partial {
    id: Option<usize>,
    priority: Option<usize>,
    title: Option<String>,
}

/// The fields a partial record denotes.
spec fn partial_view(p: &Partial) -> PartialTodo {
    PartialTodo {
        id: match p.id {
            Some(v) => Some(v as int),
            None => None,
        },
        priority: match p.priority {
            Some(v) => Some(v as int),
            None => None,
        },
        title: match p.title {
            Some(t) => Some(t@),
            None => None,
        },
    }
}

/// Reads one `"key": value` member.
fn parse_member_exec(s: &str, i: usize, p: Partial) -> (r: Option<(Partial, usize)>)
    requires
        i as int <= s@.len(),
    ensures
        (match parse_member(s@, i as int, partial_view(&p)) {
            None => r is None,
            Some(qj) => r matches Some(rp) && partial_view(&rp.0) == qj.0 && rp.1 as int == qj.1,
        }),
        r matches Some(rp) ==> rp.1 as int <= s@.len(),
{
    let n = s.unicode_len();
    let k0 = skip_ws_exec(s, i);
    if k0 >= n || s.get_char(k0) != '"' {
        return None;
    }
    let (key, k1) = match parse_string_exec(s, k0 + 1) {
        Some(kj) => kj,
        None => {
            return None;
        },
    };
    let k2 = skip_ws_exec(s, k1);
    if k2 >= n || s.get_char(k2) != ':' {
        return None;
    }
    let k3 = skip_ws_exec(s, k2 + 1);
    if key == "id".to_owned() {
        if p.id.is_some() {
            return None;
        }
        match parse_number_exec(s, k3) {
            Some((v, k4)) => Some((Partial { id: Some(v), priority: p.priority, title: p.title }, k4)),
            None => None,
        }
    } else if key == "priority".to_owned() {
        if p.priority.is_some() {
            return None;
        }
        match parse_number_exec(s, k3) {
            Some((v, k4)) => if 1 <= v && v <= 5 {
                Some((Partial { id: p.id, priority: Some(v), title: p.title }, k4))
            } else {
                None
            },
            None => None,
        }
    } else if key == "title".to_owned() {
        if p.title.is_some() {
            return None;
        }
        if k3 >= n || s.get_char(k3) != '"' {
            return None;
        }
        match parse_string_exec(s, k3 + 1) {
            Some((t, k4)) => Some((Partial { id: p.id, priority: p.priority, title: Some(t) }, k4)),
            None => None,
        }
    } else {
        None
    }
}

/// Builds the record once every field has been seen.
fn finish_exec(p: Partial) -> (r: Option<Todo>)
    ensures
        match finish_todo(partial_view(&p)) {
            None => r is None,
            Some(tv) => r matches Some(t) && t@ == tv,
        },
{
    match (p.id, p.priority, p.title) {
        (Some(id), Some(pr), Some(title)) => match crate::priority::Priority::new(pr) {
            Some(prio) => Some(Todo { id, priority: prio, title }),
            None => None,
        },
        _ => None,
    }
}

/// Reads a record from request text: exactly the grammar of
/// `parse_todo_text`, with a malformed body refused.
pub fn parse_todo(s: &str) -> (r: Option<Todo>)
    ensures
        match parse_todo_text(s@) {
            None => r is None,
            Some(tv) => r matches Some(t) && t@ == tv,
        },
{
    let n = s.unicode_len();
    let i0 = skip_ws_exec(s, 0);
    if i0 >= n || s.get_char(i0) != '{' {
        return None;
    }
    let mut p = Partial { id: None, priority: None, title: None };
    let mut k: usize = i0 + 1;
    let mut fuel: usize = 2;
    proof {
        assert(partial_view(&p) == empty_partial());
    }
    loop
        invariant
            k as int <= s@.len(),
            n == s@.len(),
            fuel <= 2,
            parse_todo_text(s@) == (match parse_members(
                s@,
                k as int,
                partial_view(&p),
                fuel as nat,
            ) {
                None => None::<TodoView>,
                Some(pj) => if skip_ws(s@, pj.1) == s@.len() {
                    finish_todo(pj.0)
                } else {
                    None
                },
            }),
        decreases fuel,
    {
        match parse_member_exec(s, k, p) {
            None => {
                return None;
            },
            Some((p2, j)) => {
                let j2 = skip_ws_exec(s, j);
                if j2 < n && s.get_char(j2) == '}' {
                    let j3 = skip_ws_exec(s, j2 + 1);
                    if j3 < n {
                        return None;
                    }
                    return finish_exec(p2);
                } else if j2 < n && s.get_char(j2) == ',' && fuel > 0 {
                    p = p2;
                    k = j2 + 1;
                    fuel = fuel - 1;
                } else {
                    return None;
                }
            },
        }
    }
}

} // verus!
