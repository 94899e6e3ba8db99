//! JSON values as the minutes logic reads them, and finding the JSON inside a
//! model's free-form reply.
use vstd::prelude::*;

use crate::text::{
    chars_of, eq_ignore_ascii_case, eq_ignore_ascii_case_lit, join, join_chars, lemma_chars_deep,
    lines, lines_of, occurs_at, push_line, occurs_at_exec, slice_chars, string_of, trim, trim_chars,
};

verus! {

/// A JSON value. A number is kept as the text that serde_json writes for it.
/// An object keeps its members in the order serde_json's map yields them.
#[derive(Debug)]
pub enum JsonValue {
    Null,
    Bool(bool),
    Number(String),
    Str(String),
    Array(Vec<JsonValue>),
    Object(Vec<(String, JsonValue)>),
}

/// serde_json's parse of a whole text as one JSON value (`serde_json::from_str`).
pub uninterp spec fn json_parse(text: Seq<char>) -> Option<JsonValue>;

/// serde_json's parse of the first JSON value at the start of a text, ignoring
/// what follows it (`Value::deserialize` on a `Deserializer`).
pub uninterp spec fn json_first(text: Seq<char>) -> Option<JsonValue>;

/// serde_json's compact rendering of a value (`Value`'s `Display`).
pub uninterp spec fn json_text(v: JsonValue) -> Seq<char>;

#[verifier::external_type_specification]
#[verifier::external_body]
pub struct ExSerdeJsonValue(serde_json::Value);

/// Converts a serde_json value into a `JsonValue`, member for member.
#[verifier::external_body]
fn from_serde(v: serde_json::Value) -> JsonValue {
    match v {
        serde_json::Value::Null => JsonValue::Null,
        serde_json::Value::Bool(b) => JsonValue::Bool(b),
        serde_json::Value::Number(n) => JsonValue::Number(n.to_string()),
        serde_json::Value::String(s) => JsonValue::Str(s),
        serde_json::Value::Array(items) => JsonValue::Array(items.into_iter().map(from_serde).collect()),
        serde_json::Value::Object(map) => JsonValue::Object(
            map.into_iter().map(|(k, v)| (k, from_serde(v))).collect(),
        ),
    }
}

/// Converts a `JsonValue` into a serde_json value, member for member; a number
/// text that serde_json does not read as a number becomes `null`.
#[verifier::external_body]
fn to_serde(v: &JsonValue) -> serde_json::Value {
    match v {
        JsonValue::Null => serde_json::Value::Null,
        JsonValue::Bool(b) => serde_json::Value::Bool(*b),
        JsonValue::Number(t) => t.parse::<serde_json::Number>().map(serde_json::Value::Number).unwrap_or(serde_json::Value::Null),
        JsonValue::Str(s) => serde_json::Value::String(s.clone()),
        JsonValue::Array(items) => serde_json::Value::Array(items.iter().map(to_serde).collect()),
        JsonValue::Object(members) => serde_json::Value::Object(
            members.iter().map(|(k, v)| (k.clone(), to_serde(v))).collect(),
        ),
    }
}

/// Calls `serde_json::from_str::<Value>`; the result is named `json_parse`.
#[verifier::external_body]
pub(crate) fn parse_json(text: &str) -> (out: Option<JsonValue>)
    ensures
        out == json_parse(text@),
{
    serde_json::from_str::<serde_json::Value>(text).ok().map(from_serde)
}

/// Calls `Value::deserialize` on `serde_json::Deserializer::from_str`, which reads
/// the first value and leaves the rest; the result is named `json_first`.
#[verifier::external_body]
pub(crate) fn parse_first_json(text: &str) -> (out: Option<JsonValue>)
    ensures
        out == json_first(text@),
{
    let mut de = serde_json::Deserializer::from_str(text);
    <serde_json::Value as serde::Deserialize>::deserialize(&mut de).ok().map(from_serde)
}

/// Calls `Value::to_string`; the result is named `json_text`.
#[verifier::external_body]
pub(crate) fn render_json(v: &JsonValue) -> (out: String)
    ensures
        out@ == json_text(*v),
{
    to_serde(v).to_string()
}

/// The value of the first member named `key` of an object.
pub open spec fn member(entries: Seq<(String, JsonValue)>, key: Seq<char>) -> Option<JsonValue>
    decreases entries.len(),
{
    if entries.len() == 0 {
        None
    } else if entries[0].0@ == key {
        Some(entries[0].1)
    } else {
        member(entries.drop_first(), key)
    }
}

/// `Value::get` with a key: the member of an object, nothing for other values.
pub open spec fn get(v: JsonValue, key: Seq<char>) -> Option<JsonValue> {
    match v {
        JsonValue::Object(entries) => member(entries@, key),
        _ => None,
    }
}

/// The string of a string value (`Value::as_str`).
pub open spec fn as_str(v: Option<JsonValue>) -> Option<Seq<char>> {
    match v {
        Some(JsonValue::Str(s)) => Some(s@),
        _ => None,
    }
}

impl JsonValue {
    /// `Value::get` with a key.
    pub fn get_key(&self, key: &[char]) -> (out: Option<&JsonValue>)
        ensures
            match out {
                Some(r) => get(*self, key@) == Some(*r),
                None => get(*self, key@).is_none(),
            },
    {
        match self {
            JsonValue::Object(entries) => {
                let mut i: usize = 0;
                assert(entries@.skip(0) == entries@);
                while i < entries.len()
                    invariant
                        i <= entries.len(),
                        get(*self, key@) == member(entries@, key@),
                        member(entries@, key@) == member(entries@.skip(i as int), key@),
                    decreases entries.len() - i,
                {
                    proof {
                        assert(entries@.skip(i as int).drop_first() == entries@.skip(i + 1));
                    }
                    let k = chars_of(entries[i].0.as_str());
                    if crate::text::occurs_at_exec(&k, key, 0) && k.len() == key.len() {
                        assert(k@ =~= key@);
                        assert(entries@.skip(i as int)[0] == entries@[i as int]);
                        return Some(&entries[i].1);
                    }
                    proof {
                        if k@ == key@ {
                            assert(occurs_at(k@, key@, 0)) by {
                                assert(k@.subrange(0, key@.len() as int) == k@);
                            }
                        }
                    }
                    i += 1;
                }
                None
            },
            _ => None,
        }
    }

    /// `Value::get` with a literal key.
    pub fn get_lit(&self, key: &str) -> (out: Option<&JsonValue>)
        ensures
            match out {
                Some(r) => get(*self, key@) == Some(*r),
                None => get(*self, key@).is_none(),
            },
    {
        let k = chars_of(key);
        self.get_key(&k)
    }

    /// `Value::as_str`.
    pub fn as_str_exec(&self) -> (out: Option<&String>)
        ensures
            match out {
                Some(s) => as_str(Some(*self)) == Some(s@),
                None => as_str(Some(*self)).is_none(),
            },
    {
        match self {
            JsonValue::Str(s) => Some(s),
            _ => None,
        }
    }
}

// ---------------------------------------------------------------------------
// Finding JSON in a reply
// ---------------------------------------------------------------------------
/// The first position at or after `i` where `p` occurs in `s`.
pub open spec fn find_from(s: Seq<char>, p: Seq<char>, i: int) -> Option<int>
    decreases s.len() - i,
{
    if i < 0 || i + p.len() > s.len() {
        None
    } else if occurs_at(s, p, i) {
        Some(i)
    } else if i >= s.len() {
        None
    } else {
        find_from(s, p, i + 1)
    }
}

/// `str::find`: the first position where `p` occurs in `s`.
pub open spec fn find(s: Seq<char>, p: Seq<char>) -> Option<int> {
    find_from(s, p, 0)
}

/// The position of the first occurrence of `p` in `s`.
pub fn find_chars(s: &[char], p: &[char]) -> (out: Option<usize>)
    ensures
        match out {
            Some(i) => find(s@, p@) == Some(i as int) && i + p@.len() <= s@.len(),
            None => find(s@, p@).is_none(),
        },
{
    if p.len() > s.len() {
        return None;
    }
    let last = s.len() - p.len();
    let mut i: usize = 0;
    while i <= last
        invariant
            last == s.len() - p.len(),
            i <= last + 1,
            find(s@, p@) == find_from(s@, p@, i as int),
        decreases last + 1 - i,
    {
        if occurs_at_exec(s, p, i) {
            return Some(i);
        }
        if i == last {
            assert(find_from(s@, p@, i + 1) == None::<int>);
            return None;
        }
        i += 1;
    }
    None
}

/// Reading a text from `i` on with the bracket depth, whether inside a string and
/// after a backslash there: the position of the bracket that closes the one
/// opened first, if it comes.
pub open spec fn scan_close(
    t: Seq<char>,
    i: int,
    depth: int,
    in_string: bool,
    escape: bool,
    open: char,
    close: char,
) -> Option<int>
    decreases t.len() - i,
{
    if i < 0 || i >= t.len() {
        None
    } else {
        let ch = t[i];
        if in_string {
            if escape {
                scan_close(t, i + 1, depth, true, false, open, close)
            } else if ch == '\\' {
                scan_close(t, i + 1, depth, true, true, open, close)
            } else if ch == '"' {
                scan_close(t, i + 1, depth, false, false, open, close)
            } else {
                scan_close(t, i + 1, depth, true, false, open, close)
            }
        } else if ch == '"' {
            scan_close(t, i + 1, depth, true, false, open, close)
        } else if ch == open {
            scan_close(t, i + 1, depth + 1, false, false, open, close)
        } else if ch == close {
            if depth - 1 == 0 {
                Some(i)
            } else {
                scan_close(t, i + 1, depth - 1, false, false, open, close)
            }
        } else {
            scan_close(t, i + 1, depth, false, false, open, close)
        }
    }
}

/// The first position at or after `i` that holds `c`.
pub open spec fn find_char_from(s: Seq<char>, c: char, i: int) -> Option<int>
    decreases s.len() - i,
{
    if i < 0 || i >= s.len() {
        None
    } else if s[i] == c {
        Some(i)
    } else {
        find_char_from(s, c, i + 1)
    }
}

/// From position `start` on: the first bracketed stretch `open ... close`, with
/// brackets balanced outside strings, that parses as JSON.
pub open spec fn enclosed_from(t: Seq<char>, start: int, open: char, close: char) -> Option<
    JsonValue,
>
    decreases t.len() - start,
{
    if start < 0 || start >= t.len() {
        None
    } else {
        match find_char_from(t, open, start) {
            None => None,
            Some(p) => match scan_close(t, p, 0, false, false, open, close) {
                None => None,
                Some(q) => match json_first(trim(t.subrange(p, q + 1))) {
                    Some(v) => Some(v),
                    None => if p + 1 > start {
                        enclosed_from(t, p + 1, open, close)
                    } else {
                        None
                    },
                },
            },
        }
    }
}

/// What a fenced block holds as JSON: the block itself, or the block after a
/// first line that says `json`.
pub open spec fn block_value(block: Seq<char>) -> Option<JsonValue> {
    let b = trim(block);
    match json_first(b) {
        Some(v) => Some(v),
        None => {
            let ls = lines(b);
            if ls.len() > 0 && eq_ignore_ascii_case(trim(ls[0]), "json"@) {
                json_first(trim(join(ls.drop_first(), "\n"@)))
            } else {
                None
            }
        },
    }
}

/// The first fenced block (between two "```") whose content parses as JSON.
pub open spec fn code_blocks_value(rest: Seq<char>) -> Option<JsonValue>
    decreases rest.len(),
{
    match find(rest, "```"@) {
        None => None,
        Some(start) => {
            let after = rest.skip(start + 3);
            match find(after, "```"@) {
                None => None,
                Some(end) => match block_value(after.take(end)) {
                    Some(v) => Some(v),
                    None => if 0 <= start && 0 <= end && start + 3 + end + 3 <= rest.len() {
                        code_blocks_value(after.skip(end + 3))
                    } else {
                        None
                    },
                },
            }
        },
    }
}

/// The JSON that a reply holds, tried in turn: the reply's first value, the
/// whole reply, a fenced block, a `{...}` stretch, a `[...]` stretch.
pub open spec fn reply_value(response: Seq<char>) -> Option<JsonValue> {
    let t = trim(response);
    if json_first(t).is_some() {
        json_first(t)
    } else if json_parse(t).is_some() {
        json_parse(t)
    } else if code_blocks_value(t).is_some() {
        code_blocks_value(t)
    } else if enclosed_from(t, 0, '{', '}').is_some() {
        enclosed_from(t, 0, '{', '}')
    } else {
        enclosed_from(t, 0, '[', ']')
    }
}

/// The message for a reply without JSON: its first four lines.
pub open spec fn no_json_message(response: Seq<char>) -> Seq<char> {
    let ls = lines(trim(response));
    let first = if ls.len() <= 4 {
        ls
    } else {
        ls.take(4)
    };
    "Unable to parse JSON from response: "@ + join(first, "\n"@)
}

/// The first value of a fenced block, or after a `json` first line.
fn block_value_exec(block: &[char]) -> (out: Option<JsonValue>)
    ensures
        out == block_value(block@),
{
    let b = trim_chars(block);
    let bs = string_of(&b);
    if let Some(v) = parse_first_json(bs.as_str()) {
        return Some(v);
    }
    let ls = lines_of(&b);
    if ls.len() > 0 {
        let first = trim_chars(&ls[0]);
        proof {
            lemma_chars_deep(ls@[0]);
        }
        if eq_ignore_ascii_case_lit(&first, "json") {
            let mut restv: Vec<Vec<char>> = Vec::new();
            let mut i: usize = 1;
            while i < ls.len()
                invariant
                    1 <= i <= ls.len(),
                    restv.deep_view() == ls.deep_view().subrange(1, i as int),
                decreases ls.len() - i,
            {
                let ghost r0 = restv.deep_view();
                let line = slice_chars(&ls[i], 0, ls[i].len());
                proof {
                    lemma_chars_deep(ls@[i as int]);
                    assert(ls@[i as int]@.subrange(0, ls@[i as int]@.len() as int) =~= ls@[i as int]@);
                    assert(ls.deep_view()[i as int] == ls@[i as int]@);
                }
                push_line(&mut restv, line);
                assert(restv.deep_view() =~= ls.deep_view().subrange(1, i + 1));
                i += 1;
            }
            assert(ls.deep_view().subrange(1, ls.len() as int) =~= ls.deep_view().drop_first());
            let nl = chars_of("\n");
            let content = join_chars(&restv, &nl);
            let ct = trim_chars(&content);
            let cts = string_of(&ct);
            return parse_first_json(cts.as_str());
        }
    }
    None
}

/// The first fenced block whose content parses as JSON.
pub fn extract_from_code_blocks(text: &[char]) -> (out: Option<JsonValue>)
    ensures
        out == code_blocks_value(text@),
{
    let fence = chars_of("```");
    proof {
        reveal_strlit("```");
    }
    let mut rest: Vec<char> = slice_chars(text, 0, text.len());
    assert(text@.subrange(0, text@.len() as int) =~= text@);
    while rest.len() > 0
        invariant
            fence@ == "```"@,
            fence@.len() == 3,
            code_blocks_value(text@) == code_blocks_value(rest@),
        decreases rest.len(),
    {
        let start = match find_chars(&rest, &fence) {
            Some(s) => s,
            None => {
                return None;
            },
        };
        assert(find(rest@, "```"@) == Some(start as int));
        let after = slice_chars(&rest, start + 3, rest.len());
        assert(after@ == rest@.skip(start + 3));
        let end = match find_chars(&after, &fence) {
            Some(e) => e,
            None => {
                return None;
            },
        };
        assert(find(after@, "```"@) == Some(end as int));
        let block = slice_chars(&after, 0, end);
        assert(block@ == after@.take(end as int));
        assert(code_blocks_value(rest@) == match block_value(after@.take(end as int)) {
            Some(v) => Some(v),
            None => code_blocks_value(after@.skip(end + 3)),
        });
        if let Some(v) = block_value_exec(&block) {
            return Some(v);
        }
        let next = slice_chars(&after, end + 3, after.len());
        assert(next@ == after@.skip(end + 3));
        rest = next;
    }
    assert(find(rest@, "```"@).is_none()) by {
        reveal_strlit("```");
        assert(find_from(rest@, "```"@, 0).is_none());
    }
    None
}

/// `scan_close` as a loop: the position of the bracket that closes the one at `p`.
fn scan_close_exec(t: &[char], p: usize, open: char, close: char) -> (out: Option<usize>)
    requires
        p < t.len(),
        t@[p as int] == open,
        open != '"',
        open != close,
    ensures
        match scan_close(t@, p as int, 0, false, false, open, close) {
            Some(q) => out == Some(q as usize) && p <= q < t.len(),
            None => out.is_none(),
        },
{
    let mut i: usize = p;
    let mut depth: usize = 0;
    let mut in_string = false;
    let mut escape = false;
    while i < t.len()
        invariant
            p <= i <= t.len(),
            p < t.len(),
            t@[p as int] == open,
            open != '"',
            open != close,
            depth <= i - p,
            i > p ==> depth >= 1,
            i == p ==> depth == 0 && !in_string && !escape,
            !in_string ==> !escape,
            scan_close(t@, p as int, 0, false, false, open, close) == scan_close(
                t@,
                i as int,
                depth as int,
                in_string,
                escape,
                open,
                close,
            ),
        decreases t.len() - i,
    {
        let ch = t[i];
        if in_string {
            if escape {
                escape = false;
            } else if ch == '\\' {
                escape = true;
            } else if ch == '"' {
                in_string = false;
            }
        } else if ch == '"' {
            in_string = true;
        } else if ch == open {
            depth = depth + 1;
        } else if ch == close {
            if depth == 1 {
                return Some(i);
            }
            depth = depth - 1;
        }
        i += 1;
    }
    None
}

/// From position `start` on: the first balanced `open ... close` stretch that parses as JSON.
pub fn extract_from_enclosed(text: &[char], open: char, close: char) -> (out: Option<JsonValue>)
    requires
        open != '"',
        open != close,
    ensures
        out == enclosed_from(text@, 0, open, close),
{
    let mut search_start: usize = 0;
    while search_start < text.len()
        invariant
            search_start <= text.len(),
            open != '"',
            open != close,
            enclosed_from(text@, 0, open, close) == enclosed_from(
                text@,
                search_start as int,
                open,
                close,
            ),
        decreases text.len() - search_start,
    {
        let mut p = search_start;
        while p < text.len() && text[p] != open
            invariant
                search_start <= p <= text.len(),
                find_char_from(text@, open, search_start as int) == find_char_from(
                    text@,
                    open,
                    p as int,
                ),
            decreases text.len() - p,
        {
            p += 1;
        }
        if p >= text.len() {
            return None;
        }
        match scan_close_exec(text, p, open, close) {
            None => {
                return None;
            },
            Some(q) => {
                let cand = slice_chars(text, p, q + 1);
                let ct = trim_chars(&cand);
                let cs = string_of(&ct);
                if let Some(v) = parse_first_json(cs.as_str()) {
                    return Some(v);
                }
            },
        }
        search_start = p + 1;
    }
    None
}

/// Finds the JSON in a model's reply, trying in turn: the first value at the
/// start, the whole reply, a fenced block, a `{...}` stretch and a `[...]`
/// stretch; without any, the error quotes the reply's first four lines.
pub fn extract_json_value(response: &str) -> (out: Result<JsonValue, String>)
    ensures
        match reply_value(response@) {
            Some(v) => out == Ok::<JsonValue, String>(v),
            None => out matches Err(m) && m@ == no_json_message(response@),
        },
{
    let cs = chars_of(response);
    let t = trim_chars(&cs);
    let ts = string_of(&t);
    if let Some(v) = parse_first_json(ts.as_str()) {
        return Ok(v);
    }
    if let Some(v) = parse_json(ts.as_str()) {
        return Ok(v);
    }
    if let Some(v) = extract_from_code_blocks(&t) {
        return Ok(v);
    }
    if let Some(v) = extract_from_enclosed(&t, '{', '}') {
        return Ok(v);
    }
    if let Some(v) = extract_from_enclosed(&t, '[', ']') {
        return Ok(v);
    }
    let ls = lines_of(&t);
    let mut first: Vec<Vec<char>> = Vec::new();
    let mut i: usize = 0;
    while i < ls.len() && i < 4
        invariant
            i <= ls.len(),
            i <= 4,
            first.deep_view() == ls.deep_view().take(i as int),
        decreases ls.len() - i,
    {
        let line = slice_chars(&ls[i], 0, ls[i].len());
        proof {
            lemma_chars_deep(ls@[i as int]);
            assert(ls@[i as int]@.subrange(0, ls@[i as int]@.len() as int) =~= ls@[i as int]@);
            assert(ls.deep_view()[i as int] == ls@[i as int]@);
        }
        push_line(&mut first, line);
        assert(first.deep_view() =~= ls.deep_view().take(i + 1));
        i += 1;
    }
    proof {
        if ls.len() <= 4 {
            assert(ls.deep_view().take(ls.len() as int) =~= ls.deep_view());
        }
    }
    let nl = chars_of("\n");
    let body = join_chars(&first, &nl);
    let mut msg = String::from_str("Unable to parse JSON from response: ");
    let bs = string_of(&body);
    msg.append(bs.as_str());
    Err(msg)
}

} // verus!
