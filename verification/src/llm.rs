//! Text rules of minutes generation: recognising placeholder sections, spotting
//! action statements in a transcript, and summarising error bodies.
use vstd::prelude::*;

use crate::text::{
    chars_of, contains, contains_chars, contains_lit, ends_with_char, eq_ignore_ascii_case,
    eq_ignore_ascii_case_lit, join, utf8_len, utf8_len_exceeds, join_chars, lemma_chars_deep, lines, lines_of, slice_chars,
    starts_with, starts_with_char, starts_with_chars, string_of, trim, trim_chars, words, words_of,
};

verus! {

// ---------------------------------------------------------------------------
// Specifications
// ---------------------------------------------------------------------------
/// The lines whose trimmed text is not empty, untrimmed.
pub open spec fn nonblank(ls: Seq<Seq<char>>) -> Seq<Seq<char>>
    decreases ls.len(),
{
    if ls.len() == 0 {
        Seq::empty()
    } else if trim(ls.last()).len() > 0 {
        nonblank(ls.drop_last()).push(ls.last())
    } else {
        nonblank(ls.drop_last())
    }
}

/// Whitespace-collapsed text has no whitespace at either end and no run of
/// whitespace, its only whitespace is the space, and collapsing it again
/// changes nothing.
pub proof fn law_sanitized_is_normal(text: Seq<char>)
    ensures
        crate::text::single_spaced(join(words(text), seq![' '])),
        join(words(join(words(text), seq![' '])), seq![' ']) == join(words(text), seq![' ']),
{
    crate::text::lemma_words_clean(text);
    crate::text::lemma_words_of_join(words(text));
}

/// The trimmed lines whose trimmed text is not empty.
pub open spec fn trimmed_nonblank(ls: Seq<Seq<char>>) -> Seq<Seq<char>>
    decreases ls.len(),
{
    if ls.len() == 0 {
        Seq::empty()
    } else if trim(ls.last()).len() > 0 {
        trimmed_nonblank(ls.drop_last()).push(trim(ls.last()))
    } else {
        trimmed_nonblank(ls.drop_last())
    }
}

/// The first `n` items, or all of them where there are fewer (`Iterator::take`).
pub open spec fn take_at_most<A>(s: Seq<A>, n: nat) -> Seq<A> {
    if s.len() <= n {
        s
    } else {
        s.take(n as int)
    }
}

/// What `summarize_body` keeps of an error body: its first four non-blank lines
/// joined by spaces, trimmed, and cut to 160 characters.
pub open spec fn summary_of_body(body: Seq<char>) -> Seq<char> {
    let joined = join(take_at_most(nonblank(lines(body)), 4), seq![' ']);
    take_at_most(trim(joined), 160)
}

/// Unicode lower-casing of a text, as `str::to_lowercase` performs it.
pub uninterp spec fn lowercase(s: Seq<char>) -> Seq<char>;

/// The words that mark a time frame, in the order `looks_like_due_prefix` tries them.
pub open spec fn due_prefix_tokens() -> Seq<Seq<char>> {
    seq!["今日"@, "明日"@, "明後日"@, "今週"@, "来週"@, "今月"@, "来月"@]
}

/// The due phrases, in the order `detect_due_phrase` tries them.
pub open spec fn due_tokens() -> Seq<Seq<char>> {
    seq!["明後日"@, "明日"@, "今日"@, "来週"@, "今週"@, "来月"@, "今月"@]
}

/// The Japanese patterns that mark an action statement.
pub open spec fn ja_action_patterns() -> Seq<Seq<char>> {
    seq![
        "します"@,
        "する"@,
        "行きます"@,
        "買います"@,
        "買いに行きます"@,
        "やります"@,
        "進めます"@,
        "予定"@,
        "ことにします"@,
        "対応します"@,
        "実施します"@,
    ]
}

/// The English patterns that mark an action statement, matched in lower case.
pub open spec fn en_action_patterns() -> Seq<Seq<char>> {
    seq![" will "@, "going to"@, "plan to"@, "plans to"@, "decided to"@, "action item"@]
}

/// `s` contains at least one of the patterns.
pub open spec fn contains_any(s: Seq<char>, pats: Seq<Seq<char>>) -> bool {
    exists|k: int| 0 <= k < pats.len() && contains(s, #[trigger] pats[k])
}

/// The first pattern that `s` contains, if any.
pub open spec fn first_contained(s: Seq<char>, pats: Seq<Seq<char>>) -> Option<Seq<char>>
    decreases pats.len(),
{
    if pats.len() == 0 {
        None
    } else if contains(s, pats[0]) {
        Some(pats[0])
    } else {
        first_contained(s, pats.drop_first())
    }
}

/// Whether a short text reads as a time frame (a due prefix such as "明日は").
pub open spec fn due_prefix_spec(text: Seq<char>) -> bool {
    let short = trim(text);
    if short.len() == 0 || utf8_len(short) > 10 {
        false
    } else {
        contains_any(short, due_prefix_tokens()) || (short.last() == 'は')
    }
}

/// Whether a trimmed text, given with its lower-cased form, reads as a
/// commitment to act: it is not a question and holds a Japanese action
/// phrase, or its lower-cased form an English one.
pub open spec fn action_statement_with(t: Seq<char>, lower: Seq<char>) -> bool {
    if t.len() == 0 {
        false
    } else if t.last() == '?' || t.last() == '？' {
        false
    } else {
        contains_any(t, ja_action_patterns()) || contains_any(lower, en_action_patterns())
    }
}

/// Whether a text reads as a commitment to act.
pub open spec fn action_statement_spec(text: Seq<char>) -> bool {
    action_statement_with(trim(text), lowercase(trim(text)))
}

/// The owner of an action, unless the speaker is blank or unknown.
pub open spec fn owner_spec(owner: Seq<char>) -> Option<Seq<char>> {
    let t = trim(owner);
    if t.len() == 0 || eq_ignore_ascii_case(t, "unknown"@) || eq_ignore_ascii_case(
        t,
        "speaker unknown"@,
    ) {
        None
    } else {
        Some(t)
    }
}

/// Whether a trimmed section text, given with its lower-cased form, is empty
/// or only says that nothing was found.
pub open spec fn placeholder_with(t: Seq<char>, lower: Seq<char>) -> bool {
    if t.len() == 0 {
        true
    } else {
        contains(lower, "none identified"@) || contains(lower, "not identified"@) || contains(
            t,
            "該当なし"@,
        ) || contains(t, "抽出できる項目はありませんでした"@)
    }
}

/// Whether a section text is empty or only says that nothing was found.
pub open spec fn placeholder_spec(content: Seq<char>) -> bool {
    placeholder_with(trim(content), lowercase(trim(content)))
}

/// A trimmed line of the form `- {...}`.
pub open spec fn is_object_bullet(line: Seq<char>) -> bool {
    starts_with(line, "- "@) && {
        let rest = line.skip(2);
        rest.len() > 0 && rest[0] == '{' && rest.last() == '}'
    }
}

/// Whether every non-blank line is a bullet holding a JSON object, and there is one.
pub open spec fn object_list_spec(content: Seq<char>) -> bool {
    let ls = trimmed_nonblank(lines(content));
    ls.len() > 0 && forall|k: int| 0 <= k < ls.len() ==> is_object_bullet(#[trigger] ls[k])
}

/// The view of an optional string.
pub open spec fn opt_view(o: Option<String>) -> Option<Seq<char>> {
    match o {
        Some(s) => Some(s@),
        None => None,
    }
}

/// An action inferred from the transcript.
pub struct InferredAction {
    pub description: String,
    pub owner: Option<String>,
    pub due: Option<String>,
}

/// The bullet line for an inferred action: `- description（担当: owner / 期限: due）`.
pub open spec fn action_bullet_spec(description: Seq<char>, owner: Option<Seq<char>>, due: Option<
    Seq<char>,
>) -> Seq<char> {
    let owner_text = match owner {
        Some(o) => o,
        None => "不明"@,
    };
    let details = match due {
        Some(d) => "担当: "@ + owner_text + " / "@ + "期限: "@ + d,
        None => "担当: "@ + owner_text,
    };
    "- "@ + description + "（"@ + details + "）"@
}

// ---------------------------------------------------------------------------
// Lemmas
// ---------------------------------------------------------------------------
proof fn lemma_nonblank_push(ls: Seq<Seq<char>>, l: Seq<char>)
    ensures
        nonblank(ls.push(l)) == if trim(l).len() > 0 {
            nonblank(ls).push(l)
        } else {
            nonblank(ls)
        },
        trimmed_nonblank(ls.push(l)) == if trim(l).len() > 0 {
            trimmed_nonblank(ls).push(trim(l))
        } else {
            trimmed_nonblank(ls)
        },
{
    assert(ls.push(l).drop_last() == ls);
}

proof fn lemma_take_at_most_push<A>(s: Seq<A>, x: A, n: nat)
    ensures
        take_at_most(s.push(x), n) == if s.len() < n {
            s.push(x)
        } else {
            take_at_most(s, n)
        },
{
    if s.len() >= n {
        assert(s.push(x).take(n as int) =~= take_at_most(s, n));
    }
}

/// An occurrence of an occurrence is an occurrence: what a part of a text
/// contains, the text contains.
proof fn lemma_contains_trans(s: Seq<char>, p: Seq<char>, q: Seq<char>)
    requires
        contains(s, p),
        contains(p, q),
    ensures
        contains(s, q),
{
    let i = choose|i: int| crate::text::occurs_at(s, p, i);
    let j = choose|j: int| crate::text::occurs_at(p, q, j);
    assert(s.subrange(i + j, i + j + q.len()) =~= p.subrange(j, j + q.len()));
    assert(crate::text::occurs_at(s, q, i + j));
}

/// The short list of Japanese action phrases that the full list reduces to.
pub open spec fn ja_action_core() -> Seq<Seq<char>> {
    seq!["します"@, "する"@, "行きます"@, "買います"@, "やります"@, "進めます"@, "予定"@]
}

/// Each of the longer Japanese patterns holds one of the short ones, so the
/// full list and the short list mark the same texts; an action statement is
/// therefore a non-empty trimmed text that does not end in a question mark
/// and holds one of the short Japanese phrases, or whose lower-cased form
/// holds one of the English ones.
pub proof fn law_action_patterns_reduce(text: Seq<char>)
    ensures
        forall|t: Seq<char>| contains_any(t, ja_action_patterns()) == contains_any(t, ja_action_core()),
        action_statement_spec(text) == {
            let t = trim(text);
            &&& t.len() > 0
            &&& t.last() != '?'
            &&& t.last() != '？'
            &&& (contains_any(t, ja_action_core()) || contains_any(lowercase(t), en_action_patterns()))
        },
{
    let full = ja_action_patterns();
    let core = ja_action_core();
    reveal_strlit("します");
    reveal_strlit("行きます");
    reveal_strlit("買いに行きます");
    reveal_strlit("ことにします");
    reveal_strlit("対応します");
    reveal_strlit("実施します");
    assert(full[0] == core[0] && full[1] == core[1] && full[2] == core[2] && full[3] == core[3]);
    assert(full[5] == core[4] && full[6] == core[5] && full[7] == core[6]);
    assert(crate::text::occurs_at(full[4], core[2], 3)) by {
        assert(full[4].subrange(3, 7) =~= core[2]);
    }
    assert(crate::text::occurs_at(full[8], core[0], 3)) by {
        assert(full[8].subrange(3, 6) =~= core[0]);
    }
    assert(crate::text::occurs_at(full[9], core[0], 2)) by {
        assert(full[9].subrange(2, 5) =~= core[0]);
    }
    assert(crate::text::occurs_at(full[10], core[0], 2)) by {
        assert(full[10].subrange(2, 5) =~= core[0]);
    }
    assert forall|t: Seq<char>| contains_any(t, full) == contains_any(t, core) by {
        if contains_any(t, full) {
            let k = choose|k: int| 0 <= k < full.len() && contains(t, #[trigger] full[k]);
            if k == 4 {
                lemma_contains_trans(t, full[4], core[2]);
                assert(contains(t, core[2]));
            } else if k >= 8 {
                lemma_contains_trans(t, full[k], core[0]);
                assert(contains(t, core[0]));
            } else if k <= 3 {
                assert(contains(t, core[k]));
            } else {
                assert(contains(t, core[k - 1]));
            }
        }
        if contains_any(t, core) {
            let k = choose|k: int| 0 <= k < core.len() && contains(t, #[trigger] core[k]);
            if k <= 3 {
                assert(contains(t, full[k]));
            } else {
                assert(contains(t, full[k + 1]));
            }
        }
    }
}

// ---------------------------------------------------------------------------
// Calls into the standard library
// ---------------------------------------------------------------------------
/// Calls `str::to_lowercase`; its result is named `lowercase`, a function of the text alone.
#[verifier::external_body]
fn to_lowercase(s: &[char]) -> (out: Vec<char>)
    ensures
        out@ == lowercase(s@),
{
    let text: String = s.iter().collect();
    text.to_lowercase().chars().collect()
}

// ---------------------------------------------------------------------------
// Executable functions
// ---------------------------------------------------------------------------
/// Characters of a string literal.
fn lit(s: &str) -> (out: Vec<char>)
    ensures
        out@ == s@,
{
    chars_of(s)
}

/// Whether `s` contains any of the literal patterns.
fn contains_any_exec(s: &[char], pats: &Vec<Vec<char>>) -> (b: bool)
    ensures
        b == contains_any(s@, pats.deep_view()),
{
    let mut k: usize = 0;
    while k < pats.len()
        invariant
            k <= pats.len(),
            forall|m: int| 0 <= m < k ==> !contains(s@, #[trigger] pats.deep_view()[m]),
        decreases pats.len() - k,
    {
        proof {
            lemma_chars_deep(pats@[k as int]);
        }
        if contains_chars(s, &pats[k]) {
            assert(contains(s@, pats.deep_view()[k as int]));
            return true;
        }
        k += 1;
    }
    false
}

/// The first of the patterns that `s` contains.
fn first_contained_exec(s: &[char], pats: &Vec<Vec<char>>) -> (out: Option<usize>)
    ensures
        match first_contained(s@, pats.deep_view()) {
            Some(p) => out.is_some() && out.unwrap() < pats.len() && pats.deep_view()[out.unwrap() as int] == p,
            None => out.is_none(),
        },
{
    let mut k: usize = 0;
    assert(pats.deep_view().skip(0) == pats.deep_view());
    while k < pats.len()
        invariant
            k <= pats.len(),
            first_contained(s@, pats.deep_view()) == first_contained(
                s@,
                pats.deep_view().skip(k as int),
            ),
        decreases pats.len() - k,
    {
        let ghost rest = pats.deep_view().skip(k as int);
        proof {
            lemma_chars_deep(pats@[k as int]);
            assert(rest[0] == pats.deep_view()[k as int]);
            assert(rest.drop_first() == pats.deep_view().skip(k + 1));
        }
        if contains_chars(s, &pats[k]) {
            return Some(k);
        }
        k += 1;
    }
    None
}

fn due_prefix_token_list() -> (out: Vec<Vec<char>>)
    ensures
        out.deep_view() == due_prefix_tokens(),
{
    let out = vec![lit("今日"), lit("明日"), lit("明後日"), lit("今週"), lit("来週"), lit("今月"), lit("来月")];
    proof {
        assert(out.deep_view() =~= due_prefix_tokens()) by {
            assert forall|i: int| 0 <= i < 7 implies out.deep_view()[i] == due_prefix_tokens()[i] by {
                lemma_chars_deep(out@[i]);
            }
        }
    }
    out
}

fn due_token_list() -> (out: Vec<Vec<char>>)
    ensures
        out.deep_view() == due_tokens(),
{
    let out = vec![lit("明後日"), lit("明日"), lit("今日"), lit("来週"), lit("今週"), lit("来月"), lit("今月")];
    proof {
        assert(out.deep_view() =~= due_tokens()) by {
            assert forall|i: int| 0 <= i < 7 implies out.deep_view()[i] == due_tokens()[i] by {
                lemma_chars_deep(out@[i]);
            }
        }
    }
    out
}

fn ja_pattern_list() -> (out: Vec<Vec<char>>)
    ensures
        out.deep_view() == ja_action_patterns(),
{
    let out = vec![
        lit("します"),
        lit("する"),
        lit("行きます"),
        lit("買います"),
        lit("買いに行きます"),
        lit("やります"),
        lit("進めます"),
        lit("予定"),
        lit("ことにします"),
        lit("対応します"),
        lit("実施します"),
    ];
    proof {
        assert(out.deep_view() =~= ja_action_patterns()) by {
            assert forall|i: int| 0 <= i < 11 implies out.deep_view()[i] == ja_action_patterns()[i] by {
                lemma_chars_deep(out@[i]);
            }
        }
    }
    out
}

fn en_pattern_list() -> (out: Vec<Vec<char>>)
    ensures
        out.deep_view() == en_action_patterns(),
{
    let out = vec![lit(" will "), lit("going to"), lit("plan to"), lit("plans to"), lit("decided to"), lit("action item")];
    proof {
        assert(out.deep_view() =~= en_action_patterns()) by {
            assert forall|i: int| 0 <= i < 6 implies out.deep_view()[i] == en_action_patterns()[i] by {
                lemma_chars_deep(out@[i]);
            }
        }
    }
    out
}

/// Collapses every run of whitespace to one space and drops it at both ends.
pub fn sanitize_text(text: &str) -> (out: String)
    ensures
        out@ == join(words(text@), seq![' ']),
{
    let cs = chars_of(text);
    let ws = words_of(&cs);
    let sep = lit(" ");
    proof {
        reveal_strlit(" ");
        assert(sep@ =~= seq![' ']);
    }
    let joined = join_chars(&ws, &sep);
    string_of(&joined)
}

/// The first four non-blank lines of an error body, joined, trimmed and cut to 160 characters.
pub fn summarize_body(body: &str) -> (out: String)
    ensures
        out@ == summary_of_body(body@),
{
    let cs = chars_of(body);
    let ls = lines_of(&cs);
    let mut kept: Vec<Vec<char>> = Vec::new();
    let mut i: usize = 0;
    while i < ls.len()
        invariant
            i <= ls.len(),
            kept.deep_view() == take_at_most(nonblank(ls.deep_view().take(i as int)), 4),
        decreases ls.len() - i,
    {
        let ghost before = ls.deep_view().take(i as int);
        proof {
            assert(ls.deep_view().take(i + 1) == before.push(ls.deep_view()[i as int]));
            lemma_nonblank_push(before, ls.deep_view()[i as int]);
            lemma_take_at_most_push(nonblank(before), ls.deep_view()[i as int], 4);
            lemma_chars_deep(ls@[i as int]);
        }
        let t = trim_chars(&ls[i]);
        if t.len() > 0 && kept.len() < 4 {
            let ghost k0 = kept.deep_view();
            let line = slice_chars(&ls[i], 0, ls[i].len());
            proof {
                lemma_chars_deep(line);
                assert(ls@[i as int]@.subrange(0, ls@[i as int]@.len() as int) =~= ls@[i as int]@);
            }
            kept.push(line);
            assert(kept.deep_view() =~= k0.push(ls.deep_view()[i as int]));
        }
        i += 1;
    }
    assert(ls.deep_view().take(ls.len() as int) == ls.deep_view());
    let sep = lit(" ");
    proof {
        reveal_strlit(" ");
        assert(sep@ =~= seq![' ']);
    }
    let joined = join_chars(&kept, &sep);
    let t = trim_chars(&joined);
    if t.len() <= 160 {
        string_of(&t)
    } else {
        let cut = slice_chars(&t, 0, 160);
        assert(cut@ == t@.take(160));
        string_of(&cut)
    }
}

/// Whether a short text reads as a time frame that belongs to the next statement,
/// such as "明日は".
pub fn looks_like_due_prefix(text: &str) -> (b: bool)
    ensures
        b == due_prefix_spec(text@),
{
    let cs = chars_of(text);
    let short = trim_chars(&cs);
    if short.len() == 0 || utf8_len_exceeds(&short, 10) {
        return false;
    }
    let tokens = due_prefix_token_list();
    contains_any_exec(&short, &tokens) || ends_with_char(&short, 'は')
}

/// Whether a trimmed text, given with its lower-cased form, reads as a
/// commitment to act.
pub fn action_statement_given(trimmed: &[char], lower: &[char]) -> (b: bool)
    ensures
        b == action_statement_with(trimmed@, lower@),
{
    if trimmed.len() == 0 {
        return false;
    }
    if ends_with_char(trimmed, '?') || ends_with_char(trimmed, '？') {
        return false;
    }
    let ja = ja_pattern_list();
    if contains_any_exec(trimmed, &ja) {
        return true;
    }
    let en = en_pattern_list();
    contains_any_exec(lower, &en)
}

/// Whether a text reads as a commitment to act: it is not a question and holds a
/// Japanese action phrase, or an English one in lower case.
pub fn looks_like_action_statement(text: &str) -> (b: bool)
    ensures
        b == action_statement_spec(text@),
{
    let cs = chars_of(text);
    let t = trim_chars(&cs);
    let lower = to_lowercase(&t);
    action_statement_given(&t, &lower)
}

/// The first due phrase ("明後日", "明日", "今日", "来週", "今週", "来月", "今月") that the text contains.
pub fn detect_due_phrase(text: &str) -> (out: Option<String>)
    ensures
        opt_view(out) == first_contained(text@, due_tokens()),
{
    let cs = chars_of(text);
    let tokens = due_token_list();
    match first_contained_exec(&cs, &tokens) {
        Some(k) => {
            proof {
                lemma_chars_deep(tokens@[k as int]);
            }
            Some(string_of(&tokens[k]))
        },
        None => None,
    }
}

/// The trimmed speaker name as an owner, unless it is blank or says it is unknown.
pub fn normalize_owner(owner: &str) -> (out: Option<String>)
    ensures
        opt_view(out) == owner_spec(owner@),
{
    let cs = chars_of(owner);
    let t = trim_chars(&cs);
    if t.len() == 0 || eq_ignore_ascii_case_lit(&t, "unknown") || eq_ignore_ascii_case_lit(
        &t,
        "speaker unknown",
    ) {
        None
    } else {
        Some(string_of(&t))
    }
}

/// The bullet line for an inferred action, naming its owner ("不明" when unknown)
/// and its due phrase when there is one.
pub fn format_inferred_action_bullet(action: &InferredAction) -> (out: String)
    ensures
        out@ == action_bullet_spec(
            action.description@,
            opt_view(action.owner),
            opt_view(action.due),
        ),
{
    let mut out = String::new();
    out.append("- ");
    out.append(action.description.as_str());
    out.append("（");
    out.append("担当: ");
    match &action.owner {
        Some(o) => out.append(o.as_str()),
        None => out.append("不明"),
    }
    match &action.due {
        Some(d) => {
            out.append(" / ");
            out.append("期限: ");
            out.append(d.as_str());
        },
        None => {},
    }
    out.append("）");
    proof {
        let owner_text = match opt_view(action.owner) {
            Some(o) => o,
            None => "不明"@,
        };
        match opt_view(action.due) {
            Some(d) => {
                assert(out@ =~= "- "@ + action.description@ + "（"@ + ("担当: "@ + owner_text
                    + " / "@ + "期限: "@ + d) + "）"@);
            },
            None => {
                assert(out@ =~= "- "@ + action.description@ + "（"@ + ("担当: "@ + owner_text)
                    + "）"@);
            },
        }
    }
    out
}

/// Whether a trimmed section text, given with its lower-cased form, is empty
/// or only states that nothing was identified.
pub fn placeholder_given(trimmed: &[char], lower: &[char]) -> (b: bool)
    ensures
        b == placeholder_with(trimmed@, lower@),
{
    if trimmed.len() == 0 {
        return true;
    }
    contains_lit(lower, "none identified") || contains_lit(lower, "not identified")
        || contains_lit(trimmed, "該当なし") || contains_lit(trimmed, "抽出できる項目はありませんでした")
}

/// Whether a section text is empty or only states that nothing was identified.
pub fn is_placeholder_or_empty(content: &str) -> (b: bool)
    ensures
        b == placeholder_spec(content@),
{
    let cs = chars_of(content);
    let t = trim_chars(&cs);
    let lower = to_lowercase(&t);
    placeholder_given(&t, &lower)
}

/// Whether a trimmed line is a bullet holding a JSON object.
fn is_object_bullet_exec(line: &[char]) -> (b: bool)
    ensures
        b == is_object_bullet(line@),
{
    let prefix = lit("- ");
    proof {
        reveal_strlit("- ");
    }
    if !starts_with_chars(line, &prefix) {
        return false;
    }
    let rest = slice_chars(line, 2, line.len());
    assert(rest@ == line@.skip(2));
    starts_with_char(&rest, '{') && ends_with_char(&rest, '}')
}

/// The trimmed non-blank lines of a text.
pub fn trimmed_nonblank_lines(content: &[char]) -> (out: Vec<Vec<char>>)
    ensures
        out.deep_view() == trimmed_nonblank(lines(content@)),
{
    let ls = lines_of(content);
    let mut out: Vec<Vec<char>> = Vec::new();
    let mut i: usize = 0;
    while i < ls.len()
        invariant
            i <= ls.len(),
            out.deep_view() == trimmed_nonblank(ls.deep_view().take(i as int)),
        decreases ls.len() - i,
    {
        let ghost before = ls.deep_view().take(i as int);
        proof {
            assert(ls.deep_view().take(i + 1) == before.push(ls.deep_view()[i as int]));
            lemma_nonblank_push(before, ls.deep_view()[i as int]);
            lemma_chars_deep(ls@[i as int]);
        }
        let t = trim_chars(&ls[i]);
        if t.len() > 0 {
            let ghost o0 = out.deep_view();
            proof {
                lemma_chars_deep(t);
            }
            out.push(t);
            assert(out.deep_view() =~= o0.push(trim(ls.deep_view()[i as int])));
        }
        i += 1;
    }
    assert(ls.deep_view().take(ls.len() as int) == ls.deep_view());
    out
}

/// Whether a section text is a list of bullets each holding a JSON object
/// (`- {...}`), which reads poorly as minutes.
pub fn is_json_object_list(content: &str) -> (b: bool)
    ensures
        b == object_list_spec(content@),
{
    let cs = chars_of(content);
    let ls = trimmed_nonblank_lines(&cs);
    if ls.len() == 0 {
        return false;
    }
    let mut k: usize = 0;
    while k < ls.len()
        invariant
            k <= ls.len(),
            ls.deep_view() == trimmed_nonblank(lines(content@)),
            forall|m: int| 0 <= m < k ==> is_object_bullet(#[trigger] ls.deep_view()[m]),
        decreases ls.len() - k,
    {
        proof {
            lemma_chars_deep(ls@[k as int]);
        }
        if !is_object_bullet_exec(&ls[k]) {
            assert(!is_object_bullet(ls.deep_view()[k as int]));
            return false;
        }
        k += 1;
    }
    true
}

} // verus!
