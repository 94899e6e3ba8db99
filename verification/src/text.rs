//! Character-level text handling: whitespace, trimming, line and word splitting,
//! substring search, joining and decimal rendering, each with the meaning that
//! Rust's `str` documentation gives it.
use vstd::prelude::*;

verus! {

// ---------------------------------------------------------------------------
// Specifications
// ---------------------------------------------------------------------------
/// Unicode `White_Space`, the property that `char::is_whitespace` tests.
pub open spec fn is_ws(c: char) -> bool {
    let v = c as u32;
    (0x09 <= v && v <= 0x0d) || v == 0x20 || v == 0x85 || v == 0xa0 || v == 0x1680 || (0x2000
        <= v && v <= 0x200a) || v == 0x2028 || v == 0x2029 || v == 0x202f || v == 0x205f || v
        == 0x3000
}

/// `str::trim_start`: the text without its leading whitespace.
pub open spec fn trim_start(s: Seq<char>) -> Seq<char>
    decreases s.len(),
{
    if s.len() > 0 && is_ws(s[0]) {
        trim_start(s.drop_first())
    } else {
        s
    }
}

/// `str::trim_end`: the text without its trailing whitespace.
pub open spec fn trim_end(s: Seq<char>) -> Seq<char>
    decreases s.len(),
{
    if s.len() > 0 && is_ws(s.last()) {
        trim_end(s.drop_last())
    } else {
        s
    }
}

/// `str::trim`.
pub open spec fn trim(s: Seq<char>) -> Seq<char> {
    trim_end(trim_start(s))
}

/// A line without the `'\r'` that ends it, if one does.
pub open spec fn strip_cr(line: Seq<char>) -> Seq<char> {
    if line.len() > 0 && line.last() == '\r' {
        line.drop_last()
    } else {
        line
    }
}

/// Reading `s` from the left: the lines finished so far (each ended by `'\n'`,
/// with a `'\r'` before it removed) and the line still open.
pub open spec fn lines_acc(s: Seq<char>) -> (Seq<Seq<char>>, Seq<char>)
    decreases s.len(),
{
    if s.len() == 0 {
        (Seq::empty(), Seq::empty())
    } else {
        let (done, cur) = lines_acc(s.drop_last());
        if s.last() == '\n' {
            (done.push(strip_cr(cur)), Seq::empty())
        } else {
            (done, cur.push(s.last()))
        }
    }
}

/// `str::lines`: the text split at `'\n'` and `"\r\n"`; a final line ending adds no line.
pub open spec fn lines(s: Seq<char>) -> Seq<Seq<char>> {
    let (done, cur) = lines_acc(s);
    if cur.len() > 0 {
        done.push(cur)
    } else {
        done
    }
}

/// Reading `s` from the left: the words finished so far and the word still open.
pub open spec fn words_acc(s: Seq<char>) -> (Seq<Seq<char>>, Seq<char>)
    decreases s.len(),
{
    if s.len() == 0 {
        (Seq::empty(), Seq::empty())
    } else {
        let (done, cur) = words_acc(s.drop_last());
        if is_ws(s.last()) {
            if cur.len() > 0 {
                (done.push(cur), Seq::empty())
            } else {
                (done, cur)
            }
        } else {
            (done, cur.push(s.last()))
        }
    }
}

/// `str::split_whitespace`: the maximal runs of non-whitespace characters.
pub open spec fn words(s: Seq<char>) -> Seq<Seq<char>> {
    let (done, cur) = words_acc(s);
    if cur.len() > 0 {
        done.push(cur)
    } else {
        done
    }
}

/// `[T]::join`: the parts with `sep` between each two neighbours.
pub open spec fn join(parts: Seq<Seq<char>>, sep: Seq<char>) -> Seq<char>
    decreases parts.len(),
{
    if parts.len() == 0 {
        Seq::empty()
    } else if parts.len() == 1 {
        parts[0]
    } else {
        join(parts.drop_last(), sep) + sep + parts.last()
    }
}

/// `p` occurs in `s` at position `i`.
pub open spec fn occurs_at(s: Seq<char>, p: Seq<char>, i: int) -> bool {
    0 <= i && i + p.len() <= s.len() && s.subrange(i, i + p.len()) == p
}

/// `str::contains` with a string pattern.
pub open spec fn contains(s: Seq<char>, p: Seq<char>) -> bool {
    exists|i: int| occurs_at(s, p, i)
}

/// `str::starts_with`.
pub open spec fn starts_with(s: Seq<char>, p: Seq<char>) -> bool {
    occurs_at(s, p, 0)
}

/// `str::ends_with`.
pub open spec fn ends_with(s: Seq<char>, p: Seq<char>) -> bool {
    occurs_at(s, p, s.len() - p.len())
}

/// The character for a decimal digit.
pub open spec fn digit_char(d: int) -> char {
    if d == 0 {
        '0'
    } else if d == 1 {
        '1'
    } else if d == 2 {
        '2'
    } else if d == 3 {
        '3'
    } else if d == 4 {
        '4'
    } else if d == 5 {
        '5'
    } else if d == 6 {
        '6'
    } else if d == 7 {
        '7'
    } else if d == 8 {
        '8'
    } else {
        '9'
    }
}

/// A lowercase hexadecimal digit.
pub open spec fn is_lower_hex(c: char) -> bool {
    ('0' <= c && c <= '9') || ('a' <= c && c <= 'f')
}

/// The decimal rendering of a natural number, as `{}` writes it.
pub open spec fn decimal(n: nat) -> Seq<char>
    decreases n,
{
    if n < 10 {
        seq![digit_char(n as int)]
    } else {
        decimal(n / 10).push(digit_char((n % 10) as int))
    }
}

/// The decimal rendering padded with zeros to two digits, as `{:02}` writes it.
pub open spec fn decimal2(n: nat) -> Seq<char> {
    if n < 10 {
        seq!['0', digit_char(n as int)]
    } else {
        decimal(n)
    }
}

/// The code point of a character after ASCII case folding (`char::to_ascii_lowercase`).
pub open spec fn ascii_lower(c: char) -> u32 {
    let v = c as u32;
    if 0x41 <= v && v <= 0x5a {
        (v + 32) as u32
    } else {
        v
    }
}

/// `str::eq_ignore_ascii_case`.
pub open spec fn eq_ignore_ascii_case(a: Seq<char>, b: Seq<char>) -> bool {
    a.len() == b.len() && forall|i: int| 0 <= i < a.len() ==> ascii_lower(a[i]) == ascii_lower(b[i])
}

/// The length in bytes of the UTF-8 encoding of a text (`str::len`).
pub open spec fn utf8_len(s: Seq<char>) -> nat {
    vstd::utf8::encode_utf8(s).len()
}

// ---------------------------------------------------------------------------
// Lemmas about the specifications
// ---------------------------------------------------------------------------
/// Trimming whitespace from the start after skipping whitespace gives the same result.
proof fn lemma_trim_start_skip(s: Seq<char>, i: int)
    requires
        0 <= i <= s.len(),
        forall|j: int| 0 <= j < i ==> is_ws(s[j]),
    ensures
        trim_start(s) == trim_start(s.subrange(i, s.len() as int)),
    decreases i,
{
    if i > 0 {
        assert(s.drop_first() == s.subrange(1, s.len() as int));
        lemma_trim_start_skip(s.drop_first(), i - 1);
        assert(s.drop_first().subrange(i - 1, s.drop_first().len() as int) == s.subrange(
            i,
            s.len() as int,
        ));
    } else {
        assert(s.subrange(0, s.len() as int) == s);
    }
}

proof fn lemma_trim_end_cut(s: Seq<char>, j: int)
    requires
        0 <= j <= s.len(),
        forall|k: int| j <= k < s.len() ==> is_ws(s[k]),
    ensures
        trim_end(s) == trim_end(s.subrange(0, j)),
    decreases s.len() - j,
{
    if j < s.len() {
        lemma_trim_end_cut(s.drop_last(), j);
        assert(s.drop_last().subrange(0, j) == s.subrange(0, j));
    } else {
        assert(s.subrange(0, j) == s);
    }
}

/// The trimmed text is the text from the first to past the last non-whitespace character.
proof fn lemma_trim_bounds(s: Seq<char>, i: int, j: int)
    requires
        0 <= i <= j <= s.len(),
        forall|k: int| 0 <= k < i ==> is_ws(s[k]),
        forall|k: int| j <= k < s.len() ==> is_ws(s[k]),
        i < j ==> !is_ws(s[i]) && !is_ws(s[j - 1]),
        i == j ==> j == s.len(),
    ensures
        trim(s) == s.subrange(i, j),
{
    lemma_trim_start_skip(s, i);
    let t = s.subrange(i, s.len() as int);
    if i < j {
        assert(trim_start(t) == t);
        lemma_trim_end_cut(t, j - i);
        assert(t.subrange(0, j - i) == s.subrange(i, j));
        let u = s.subrange(i, j);
        assert(u.last() == s[j - 1]);
        assert(trim_end(u) == u);
    } else {
        assert(t.len() == 0);
        assert(trim_end(t) == t);
        assert(t == s.subrange(i, j));
    }
}

proof fn lemma_trim_start_shape(s: Seq<char>)
    ensures
        trim_start(s).len() <= s.len(),
        trim_start(s) == s.subrange(s.len() - trim_start(s).len(), s.len() as int),
        trim_start(s).len() > 0 ==> !is_ws(trim_start(s)[0]),
    decreases s.len(),
{
    if s.len() > 0 && is_ws(s[0]) {
        lemma_trim_start_shape(s.drop_first());
        assert(s.drop_first().subrange(
            s.drop_first().len() - trim_start(s).len(),
            s.drop_first().len() as int,
        ) =~= s.subrange(s.len() - trim_start(s).len(), s.len() as int));
    } else {
        assert(s.subrange(0, s.len() as int) =~= s);
    }
}

proof fn lemma_trim_end_shape(s: Seq<char>)
    ensures
        trim_end(s).len() <= s.len(),
        trim_end(s) == s.subrange(0, trim_end(s).len() as int),
        trim_end(s).len() > 0 ==> !is_ws(trim_end(s).last()),
    decreases s.len(),
{
    if s.len() > 0 && is_ws(s.last()) {
        lemma_trim_end_shape(s.drop_last());
        assert(s.drop_last().subrange(0, trim_end(s).len() as int) =~= s.subrange(
            0,
            trim_end(s).len() as int,
        ));
    } else {
        assert(s.subrange(0, s.len() as int) =~= s);
    }
}

/// Trimmed text starts and ends with a character that is not whitespace,
/// holds only characters of the text, and trimming it again changes nothing.
pub proof fn lemma_trim_shape(s: Seq<char>)
    ensures
        trim(s).len() > 0 ==> !is_ws(trim(s)[0]) && !is_ws(trim(s).last()),
        forall|k: int| 0 <= k < trim(s).len() ==> s.contains(#[trigger] trim(s)[k]),
        trim(trim(s)) == trim(s),
{
    let r = trim_start(s);
    lemma_trim_start_shape(s);
    lemma_trim_end_shape(r);
    let t = trim(s);
    let a = s.len() - r.len();
    assert forall|k: int| 0 <= k < t.len() implies s.contains(#[trigger] t[k]) by {
        assert(t[k] == r[k]);
        assert(r[k] == s[a + k]);
    }
    if t.len() > 0 {
        assert(t[0] == r[0]);
        lemma_trim_bounds(t, 0, t.len() as int);
        assert(t.subrange(0, t.len() as int) =~= t);
    } else {
        assert(trim_start(t) == t);
        assert(trim_end(t) == t);
    }
}

/// A text without whitespace at either end, or empty, is its own trim.
pub proof fn lemma_trim_of_clean(s: Seq<char>)
    requires
        s.len() > 0 ==> !is_ws(s[0]) && !is_ws(s.last()),
    ensures
        trim(s) == s,
{
    if s.len() > 0 {
        lemma_trim_bounds(s, 0, s.len() as int);
        assert(s.subrange(0, s.len() as int) =~= s);
    } else {
        assert(trim_start(s) == s);
        assert(trim_end(s) == s);
    }
}

/// No line of a text holds a line feed.
pub proof fn lemma_lines_no_newline(s: Seq<char>)
    ensures
        forall|i: int, k: int|
            0 <= i < lines(s).len() && 0 <= k < lines(s)[i].len() ==> #[trigger] lines(s)[i][k]
                != '\n',
{
    lemma_lines_acc_no_newline(s);
}

proof fn lemma_lines_acc_no_newline(s: Seq<char>)
    ensures
        forall|i: int, k: int|
            0 <= i < lines_acc(s).0.len() && 0 <= k < lines_acc(s).0[i].len()
                ==> #[trigger] lines_acc(s).0[i][k] != '\n',
        forall|k: int| 0 <= k < lines_acc(s).1.len() ==> #[trigger] lines_acc(s).1[k] != '\n',
    decreases s.len(),
{
    if s.len() > 0 {
        lemma_lines_acc_no_newline(s.drop_last());
        let (done, cur) = lines_acc(s.drop_last());
        if s.last() == '\n' {
            let l = strip_cr(cur);
            assert forall|k: int| 0 <= k < l.len() implies l[k] != '\n' by {
                assert(l[k] == cur[k]);
            }
            assert forall|i: int, k: int|
                0 <= i < done.push(l).len() && 0 <= k < done.push(l)[i].len() implies #[trigger] done.push(
                l,
            )[i][k] != '\n' by {
                if i < done.len() {
                    assert(done.push(l)[i] == done[i]);
                }
            }
        } else {
            assert forall|k: int| 0 <= k < cur.push(s.last()).len() implies #[trigger] cur.push(
                s.last(),
            )[k] != '\n' by {
                if k < cur.len() {
                    assert(cur.push(s.last())[k] == cur[k]);
                }
            }
        }
    }
}

/// A text without a line feed is one line, or none when it is empty.
pub proof fn lemma_lines_single(s: Seq<char>)
    requires
        forall|k: int| 0 <= k < s.len() ==> s[k] != '\n',
    ensures
        lines(s) == if s.len() > 0 {
            seq![s]
        } else {
            Seq::<Seq<char>>::empty()
        },
{
    lemma_lines_acc_single(s);
    assert(Seq::<Seq<char>>::empty().push(s) =~= seq![s]);
}

proof fn lemma_lines_acc_single(s: Seq<char>)
    requires
        forall|k: int| 0 <= k < s.len() ==> s[k] != '\n',
    ensures
        lines_acc(s) == (Seq::<Seq<char>>::empty(), s),
    decreases s.len(),
{
    if s.len() > 0 {
        assert(s.drop_last().push(s.last()) =~= s);
        assert(s.last() == s[s.len() - 1]);
        lemma_lines_acc_single(s.drop_last());
    }
}

/// A join of non-empty parts starts with the first part's first character and
/// ends with the last part's last character.
pub proof fn lemma_join_ends(parts: Seq<Seq<char>>, sep: Seq<char>)
    requires
        parts.len() > 0,
        forall|i: int| 0 <= i < parts.len() ==> (#[trigger] parts[i]).len() > 0,
    ensures
        join(parts, sep).len() > 0,
        join(parts, sep)[0] == parts[0][0],
        join(parts, sep).last() == parts.last().last(),
    decreases parts.len(),
{
    if parts.len() > 1 {
        let init = parts.drop_last();
        assert forall|i: int| 0 <= i < init.len() implies (#[trigger] init[i]).len() > 0 by {
            assert(init[i] == parts[i]);
        }
        lemma_join_ends(init, sep);
        assert(init[0] == parts[0]);
        let j = join(parts, sep);
        assert(j == join(init, sep) + sep + parts.last());
        assert(j[0] == join(init, sep)[0]);
    }
}

/// A character that neither the parts nor the separator hold is not in their join.
pub proof fn lemma_join_without(parts: Seq<Seq<char>>, sep: Seq<char>, c: char)
    requires
        forall|k: int| 0 <= k < sep.len() ==> sep[k] != c,
        forall|i: int, k: int| 0 <= i < parts.len() && 0 <= k < parts[i].len() ==> #[trigger] parts[i][k] != c,
    ensures
        forall|k: int| 0 <= k < join(parts, sep).len() ==> #[trigger] join(parts, sep)[k] != c,
    decreases parts.len(),
{
    if parts.len() > 1 {
        let init = parts.drop_last();
        assert forall|i: int, k: int| 0 <= i < init.len() && 0 <= k < init[i].len() implies #[trigger] init[i][k] != c by {
            assert(init[i] == parts[i]);
        }
        lemma_join_without(init, sep, c);
        let a = join(init, sep);
        let p = parts.last();
        assert forall|k: int| 0 <= k < join(parts, sep).len() implies #[trigger] join(parts, sep)[k] != c by {
            assert(join(parts, sep) == a + sep + p);
            if k < a.len() {
            } else if k < a.len() + sep.len() {
                assert((a + sep + p)[k] == sep[k - a.len()]);
            } else {
                assert((a + sep + p)[k] == p[k - a.len() - sep.len()]);
                assert(p == parts[parts.len() - 1]);
            }
        }
    } else if parts.len() == 1 {
        assert forall|k: int| 0 <= k < join(parts, sep).len() implies #[trigger] join(parts, sep)[k] != c by {
            assert(parts[0][k] != c);
        }
    }
}

/// Text whose only whitespace is single spaces between two other characters.
pub open spec fn single_spaced(s: Seq<char>) -> bool {
    forall|i: int|
        0 <= i < s.len() && is_ws(#[trigger] s[i]) ==> s[i] == ' ' && 0 < i && i + 1 < s.len()
            && !is_ws(s[i - 1]) && !is_ws(s[i + 1])
}

/// Text without whitespace.
pub open spec fn no_ws(s: Seq<char>) -> bool {
    forall|k: int| 0 <= k < s.len() ==> !is_ws(#[trigger] s[k])
}

proof fn lemma_trim_start_stops_at(s: Seq<char>, i: int)
    requires
        0 <= i < s.len(),
        !is_ws(s[i]),
    ensures
        trim_start(s).len() >= s.len() - i,
    decreases s.len(),
{
    if i > 0 && is_ws(s[0]) {
        lemma_trim_start_stops_at(s.drop_first(), i - 1);
    }
}

proof fn lemma_trim_end_stops_at(s: Seq<char>, j: int)
    requires
        0 <= j < s.len(),
        !is_ws(s[j]),
    ensures
        trim_end(s).len() > j,
    decreases s.len(),
{
    if j < s.len() - 1 && is_ws(s.last()) {
        lemma_trim_end_stops_at(s.drop_last(), j);
    }
}

/// Text that holds a phrase without whitespace does not trim to nothing.
pub proof fn lemma_phrase_survives_trim(s: Seq<char>, p: Seq<char>)
    requires
        contains(s, p),
        p.len() > 0,
        no_ws(p),
    ensures
        trim(s).len() > 0,
{
    let i = choose|i: int| occurs_at(s, p, i);
    assert(s[i] == p[0]);
    lemma_trim_start_stops_at(s, i);
    lemma_trim_start_shape(s);
    let r = trim_start(s);
    let j = i - (s.len() - r.len());
    assert(r[j] == s[i]);
    lemma_trim_end_stops_at(r, j);
}

/// What a trimmed text holds, the text holds.
pub proof fn lemma_trim_contains(s: Seq<char>, p: Seq<char>)
    requires
        contains(trim(s), p),
    ensures
        contains(s, p),
{
    lemma_trim_start_shape(s);
    let r = trim_start(s);
    lemma_trim_end_shape(r);
    let t = trim(s);
    let a = s.len() - r.len();
    let i = choose|i: int| occurs_at(t, p, i);
    assert(s.subrange(a + i, a + i + p.len()) =~= t.subrange(i, i + p.len()));
    assert(occurs_at(s, p, a + i));
}

/// Whitespace-collapsed text is single-spaced.
pub proof fn lemma_collapsed_single_spaced(s: Seq<char>)
    ensures
        single_spaced(join(words(s), seq![' '])),
{
    lemma_words_clean(s);
    lemma_words_of_join(words(s));
}

/// Single-spaced text neither starts nor ends with whitespace.
pub proof fn lemma_single_spaced_ends(s: Seq<char>)
    requires
        single_spaced(s),
        s.len() > 0,
    ensures
        !is_ws(s[0]),
        !is_ws(s.last()),
{
}

/// Two single-spaced texts joined by one space make a single-spaced text.
pub proof fn lemma_single_spaced_concat(a: Seq<char>, b: Seq<char>)
    requires
        single_spaced(a),
        single_spaced(b),
        a.len() > 0,
        b.len() > 0,
    ensures
        single_spaced(a + seq![' '] + b),
{
    lemma_single_spaced_ends(a);
    lemma_single_spaced_ends(b);
    let j = a + seq![' '] + b;
    let n = a.len() as int;
    assert forall|i: int| 0 <= i < j.len() && is_ws(#[trigger] j[i]) implies j[i] == ' ' && 0 < i
        && i + 1 < j.len() && !is_ws(j[i - 1]) && !is_ws(j[i + 1]) by {
        if i < n {
            assert(j[i] == a[i]);
            assert(is_ws(a[i]));
            assert(j[i - 1] == a[i - 1]);
            if i + 1 < n {
                assert(j[i + 1] == a[i + 1]);
            }
        } else if i == n {
            assert(j[i - 1] == a[n - 1]);
            assert(j[i + 1] == b[0]);
        } else {
            let k = i - n - 1;
            assert(j[i] == b[k]);
            assert(is_ws(b[k]));
            assert(j[i + 1] == b[k + 1]);
            if k > 0 {
                assert(j[i - 1] == b[k - 1]);
            }
        }
    }
}

/// Cutting a single-spaced text short and trimming the cut leaves a
/// single-spaced text.
pub proof fn lemma_single_spaced_prefix_trim(s: Seq<char>, m: int)
    requires
        single_spaced(s),
        0 <= m <= s.len(),
    ensures
        single_spaced(trim(s.take(m))),
{
    let p = s.take(m);
    if p.len() > 0 {
        assert(p[0] == s[0]);
        lemma_single_spaced_ends(s);
        assert(trim_start(p) == p);
    } else {
        assert(trim_start(p) == p);
    }
    lemma_trim_end_shape(p);
    let q = trim_end(p);
    assert(trim(p) == q);
    assert forall|i: int| 0 <= i < q.len() && is_ws(#[trigger] q[i]) implies q[i] == ' ' && 0 < i
        && i + 1 < q.len() && !is_ws(q[i - 1]) && !is_ws(q[i + 1]) by {
        assert(q[i] == s[i]);
        assert(is_ws(s[i]));
        assert(i != q.len() - 1);
        assert(q[i - 1] == s[i - 1]);
        assert(q[i + 1] == s[i + 1]);
    }
}

proof fn lemma_words_acc_clean(s: Seq<char>)
    ensures
        forall|i: int|
            0 <= i < words_acc(s).0.len() ==> (#[trigger] words_acc(s).0[i]).len() > 0 && no_ws(
                words_acc(s).0[i],
            ),
        no_ws(words_acc(s).1),
    decreases s.len(),
{
    if s.len() > 0 {
        lemma_words_acc_clean(s.drop_last());
        let (done, cur) = words_acc(s.drop_last());
        if is_ws(s.last()) {
            if cur.len() > 0 {
                assert forall|i: int| 0 <= i < done.push(cur).len() implies (#[trigger] done.push(
                    cur,
                )[i]).len() > 0 && no_ws(done.push(cur)[i]) by {
                    if i < done.len() {
                        assert(done.push(cur)[i] == done[i]);
                    }
                }
            }
            assert(no_ws(Seq::<char>::empty()));
        } else {
            assert forall|k: int| 0 <= k < cur.push(s.last()).len() implies !is_ws(
                #[trigger] cur.push(s.last())[k],
            ) by {
                if k < cur.len() {
                    assert(cur.push(s.last())[k] == cur[k]);
                }
            }
        }
    }
}

/// Each word of a text is non-empty and holds no whitespace.
pub proof fn lemma_words_clean(s: Seq<char>)
    ensures
        forall|i: int|
            0 <= i < words(s).len() ==> (#[trigger] words(s)[i]).len() > 0 && no_ws(words(s)[i]),
{
    lemma_words_acc_clean(s);
    let (done, cur) = words_acc(s);
    if cur.len() > 0 {
        assert forall|i: int| 0 <= i < done.push(cur).len() implies (#[trigger] done.push(
            cur,
        )[i]).len() > 0 && no_ws(done.push(cur)[i]) by {
            if i < done.len() {
                assert(done.push(cur)[i] == done[i]);
            }
        }
    }
}

proof fn lemma_words_acc_append(a: Seq<char>, q: Seq<char>)
    requires
        no_ws(q),
    ensures
        words_acc(a + q) == (words_acc(a).0, words_acc(a).1 + q),
    decreases q.len(),
{
    if q.len() == 0 {
        assert(a + q =~= a);
        assert(words_acc(a).1 + q =~= words_acc(a).1);
    } else {
        let q0 = q.drop_last();
        assert(no_ws(q0)) by {
            assert forall|k: int| 0 <= k < q0.len() implies !is_ws(#[trigger] q0[k]) by {
                assert(q0[k] == q[k]);
            }
        }
        lemma_words_acc_append(a, q0);
        assert((a + q).drop_last() =~= a + q0);
        assert((a + q).last() == q[q.len() - 1]);
        assert(words_acc(a).1 + q0.push(q.last()) =~= words_acc(a).1 + q);
        assert(q0.push(q.last()) =~= q);
    }
}

/// Words joined by single spaces split back into the same words.
pub proof fn lemma_words_of_join(parts: Seq<Seq<char>>)
    requires
        forall|i: int| 0 <= i < parts.len() ==> (#[trigger] parts[i]).len() > 0 && no_ws(parts[i]),
    ensures
        words(join(parts, seq![' '])) == parts,
        single_spaced(join(parts, seq![' '])),
        parts.len() > 0 ==> words_acc(join(parts, seq![' '])) == (parts.drop_last(), parts.last()),
    decreases parts.len(),
{
    let sp = seq![' '];
    if parts.len() == 0 {
        assert(words_acc(Seq::<char>::empty()) == (Seq::<Seq<char>>::empty(), Seq::<char>::empty()));
    } else if parts.len() == 1 {
        let p = parts[0];
        assert(join(parts, sp) == p);
        lemma_words_acc_append(Seq::<char>::empty(), p);
        assert(Seq::<char>::empty() + p =~= p);
        assert(Seq::<char>::empty() + p =~= p);
        assert(parts.drop_last() =~= Seq::<Seq<char>>::empty());
        assert(Seq::<Seq<char>>::empty().push(p) =~= parts);
        assert forall|i: int| 0 <= i < p.len() && is_ws(#[trigger] p[i]) implies false by {}
    } else {
        let init = parts.drop_last();
        let p = parts.last();
        assert forall|i: int| 0 <= i < init.len() implies (#[trigger] init[i]).len() > 0 && no_ws(init[i]) by {
            assert(init[i] == parts[i]);
        }
        lemma_words_of_join(init);
        let a = join(init, sp);
        lemma_join_push(init, sp, p);
        assert(init.push(p) =~= parts);
        let j = join(parts, sp);
        assert(j == a + sp + p);
        assert(a + sp =~= a.push(' '));
        assert(a.push(' ').drop_last() =~= a);
        assert(init.last().len() > 0);
        assert(words_acc(a.push(' ')) == (init.drop_last().push(init.last()), Seq::<char>::empty()));
        assert(init.drop_last().push(init.last()) =~= init);
        assert(parts[parts.len() - 1] == p);
        lemma_words_acc_append(a + sp, p);
        assert(Seq::<char>::empty() + p =~= p);
        assert(words_acc(j) == (init, p));
        assert(parts.drop_last() == init);
        assert(words(j) == init.push(p));
        lemma_join_ends(init, sp);
        assert forall|i: int| 0 <= i < j.len() && is_ws(#[trigger] j[i]) implies j[i] == ' ' && 0 < i
            && i + 1 < j.len() && !is_ws(j[i - 1]) && !is_ws(j[i + 1]) by {
            if i < a.len() {
                assert(j[i] == a[i]);
                assert(is_ws(a[i]));
                assert(i + 1 < a.len() && !is_ws(a[i - 1]) && !is_ws(a[i + 1]));
                assert(j[i - 1] == a[i - 1]);
                assert(j[i + 1] == a[i + 1]);
            } else if i == a.len() {
                assert(j[i - 1] == a.last());
                assert(a.last() == init.last().last());
                assert(!is_ws(init.last()[init.last().len() - 1]));
                assert(j[i + 1] == p[0]);
            } else {
                assert(j[i] == p[i - a.len() - 1]);
                assert(!is_ws(p[i - a.len() - 1]));
            }
        }
    }
}

/// A vector of characters seen deeply is its plain view.
pub proof fn lemma_chars_deep(v: Vec<char>)
    ensures
        v.deep_view() == v@,
{
    assert(v.deep_view() =~= v@);
}

pub proof fn lemma_join_push(parts: Seq<Seq<char>>, sep: Seq<char>, p: Seq<char>)
    ensures
        join(parts.push(p), sep) == if parts.len() == 0 {
            p
        } else {
            join(parts, sep) + sep + p
        },
{
    assert(parts.push(p).drop_last() == parts);
}

// ---------------------------------------------------------------------------
// Executable functions
// ---------------------------------------------------------------------------
/// Characters of a string slice, in order.
pub fn chars_of(s: &str) -> (out: Vec<char>)
    ensures
        out@ == s@,
{
    let mut out: Vec<char> = Vec::new();
    for c in it: s.chars()
        invariant
            out@ == it.seq().take(it.index() as int),
            it.seq() == s@,
    {
        out.push(c);
    }
    out
}

/// `String::push`, which appends one character.
#[verifier::external_body]
pub fn push_char(s: &mut String, c: char)
    ensures
        final(s)@ == old(s)@.push(c),
{
    s.push(c);
}

/// A string made of the given characters.
pub fn string_of(cs: &[char]) -> (out: String)
    ensures
        out@ == cs@,
{
    let mut out = String::new();
    let mut i: usize = 0;
    while i < cs.len()
        invariant
            i <= cs.len(),
            out@ == cs@.take(i as int),
        decreases cs.len() - i,
    {
        push_char(&mut out, cs[i]);
        assert(cs@.take(i + 1) == cs@.take(i as int).push(cs@[i as int]));
        i += 1;
    }
    assert(cs@.take(cs.len() as int) == cs@);
    out
}

/// A string made of a literal's characters.
pub fn string_lit(s: &str) -> (out: String)
    ensures
        out@ == s@,
{
    let cs = chars_of(s);
    string_of(&cs)
}

/// `char::is_whitespace`.
pub fn is_whitespace(c: char) -> (b: bool)
    ensures
        b == is_ws(c),
{
    let v = c as u32;
    (0x09 <= v && v <= 0x0d) || v == 0x20 || v == 0x85 || v == 0xa0 || v == 0x1680 || (0x2000
        <= v && v <= 0x200a) || v == 0x2028 || v == 0x2029 || v == 0x202f || v == 0x205f || v
        == 0x3000
}

/// The characters from `lo` to `hi`.
pub fn slice_chars(s: &[char], lo: usize, hi: usize) -> (out: Vec<char>)
    requires
        lo <= hi <= s.len(),
    ensures
        out@ == s@.subrange(lo as int, hi as int),
{
    let mut out: Vec<char> = Vec::new();
    let mut i = lo;
    while i < hi
        invariant
            lo <= i <= hi <= s.len(),
            out@ == s@.subrange(lo as int, i as int),
        decreases hi - i,
    {
        out.push(s[i]);
        assert(s@.subrange(lo as int, i + 1) == s@.subrange(lo as int, i as int).push(s@[i as int]));
        i += 1;
    }
    out
}

/// `str::trim` on characters.
pub fn trim_chars(s: &[char]) -> (out: Vec<char>)
    ensures
        out@ == trim(s@),
{
    let n = s.len();
    let mut i: usize = 0;
    while i < n && is_whitespace(s[i])
        invariant
            i <= n == s.len(),
            forall|k: int| 0 <= k < i ==> is_ws(s@[k]),
        decreases n - i,
    {
        i += 1;
    }
    let mut j: usize = n;
    while j > i && is_whitespace(s[j - 1])
        invariant
            i <= j <= n == s.len(),
            forall|k: int| j <= k < n ==> is_ws(s@[k]),
            i < n ==> !is_ws(s@[i as int]),
        decreases j,
    {
        j -= 1;
    }
    proof {
        lemma_trim_bounds(s@, i as int, j as int);
    }
    slice_chars(s, i, j)
}

/// `str::trim`, giving an owned string.
pub fn trim_str(s: &str) -> (out: String)
    ensures
        out@ == trim(s@),
{
    let cs = chars_of(s);
    let t = trim_chars(&cs);
    string_of(&t)
}

/// `str::lines` on characters.
pub fn lines_of(s: &[char]) -> (out: Vec<Vec<char>>)
    ensures
        out.deep_view() == lines(s@),
{
    let mut done: Vec<Vec<char>> = Vec::new();
    let mut cur: Vec<char> = Vec::new();
    let mut i: usize = 0;
    while i < s.len()
        invariant
            i <= s.len(),
            (done.deep_view(), cur@) == lines_acc(s@.take(i as int)),
        decreases s.len() - i,
    {
        let c = s[i];
        proof {
            assert(s@.take(i + 1).drop_last() == s@.take(i as int));
        }
        let ghost d0 = done.deep_view();
        let ghost c0 = cur@;
        if c == '\n' {
            let n = cur.len();
            if n > 0 && cur[n - 1] == '\r' {
                cur.pop();
                assert(cur@ == c0.drop_last());
            }
            assert(cur@ == strip_cr(c0));
            proof {
                lemma_chars_deep(cur);
            }
            let line = cur;
            done.push(line);
            assert(done.deep_view() =~= d0.push(strip_cr(c0)));
            cur = Vec::new();
        } else {
            cur.push(c);
        }
        i += 1;
    }
    assert(s@.take(s.len() as int) == s@);
    if cur.len() > 0 {
        let ghost d0 = done.deep_view();
        let ghost c0 = cur@;
        proof {
            lemma_chars_deep(cur);
        }
        done.push(cur);
        assert(done.deep_view() =~= d0.push(c0));
    }
    done
}

/// `str::split_whitespace` on characters.
pub fn words_of(s: &[char]) -> (out: Vec<Vec<char>>)
    ensures
        out.deep_view() == words(s@),
{
    let mut done: Vec<Vec<char>> = Vec::new();
    let mut cur: Vec<char> = Vec::new();
    let mut i: usize = 0;
    while i < s.len()
        invariant
            i <= s.len(),
            (done.deep_view(), cur@) == words_acc(s@.take(i as int)),
        decreases s.len() - i,
    {
        let c = s[i];
        proof {
            assert(s@.take(i + 1).drop_last() == s@.take(i as int));
        }
        let ghost d0 = done.deep_view();
        let ghost c0 = cur@;
        if is_whitespace(c) {
            if cur.len() > 0 {
                proof {
                    lemma_chars_deep(cur);
                }
                let word = cur;
                done.push(word);
                assert(done.deep_view() =~= d0.push(c0));
                cur = Vec::new();
            }
        } else {
            cur.push(c);
        }
        i += 1;
    }
    assert(s@.take(s.len() as int) == s@);
    if cur.len() > 0 {
        let ghost d0 = done.deep_view();
        let ghost c0 = cur@;
        proof {
            lemma_chars_deep(cur);
        }
        done.push(cur);
        assert(done.deep_view() =~= d0.push(c0));
    }
    done
}

/// Appends a string's characters.
pub fn extend_str(out: &mut Vec<char>, s: &str)
    ensures
        final(out)@ == old(out)@ + s@,
{
    let cs = chars_of(s);
    extend_chars(out, &cs);
}

/// Appends a line to a list of lines.
pub fn push_line(lines: &mut Vec<Vec<char>>, line: Vec<char>)
    ensures
        final(lines).deep_view() == old(lines).deep_view().push(line@),
{
    let ghost d0 = lines.deep_view();
    proof {
        lemma_chars_deep(line);
    }
    lines.push(line);
    assert(lines.deep_view() =~= d0.push(line@));
}

/// Appends all of `t` to `out`.
pub fn extend_chars(out: &mut Vec<char>, t: &[char])
    ensures
        final(out)@ == old(out)@ + t@,
{
    let mut i: usize = 0;
    while i < t.len()
        invariant
            i <= t.len(),
            out@ == old(out)@ + t@.take(i as int),
        decreases t.len() - i,
    {
        out.push(t[i]);
        assert(t@.take(i + 1) == t@.take(i as int).push(t@[i as int]));
        i += 1;
    }
    assert(t@.take(t.len() as int) == t@);
}

/// `[T]::join` on character sequences.
pub fn join_chars(parts: &Vec<Vec<char>>, sep: &[char]) -> (out: Vec<char>)
    ensures
        out@ == join(parts.deep_view(), sep@),
{
    let mut out: Vec<char> = Vec::new();
    let mut i: usize = 0;
    while i < parts.len()
        invariant
            i <= parts.len(),
            out@ == join(parts.deep_view().take(i as int), sep@),
        decreases parts.len() - i,
    {
        proof {
            lemma_join_push(parts.deep_view().take(i as int), sep@, parts.deep_view()[i as int]);
            assert(parts.deep_view().take(i + 1) == parts.deep_view().take(i as int).push(
                parts.deep_view()[i as int],
            ));
        }
        if i > 0 {
            extend_chars(&mut out, sep);
        }
        extend_chars(&mut out, &parts[i]);
        i += 1;
    }
    assert(parts.deep_view().take(parts.len() as int) == parts.deep_view());
    out
}

/// Whether `p` occurs in `s` at position `i`.
pub fn occurs_at_exec(s: &[char], p: &[char], i: usize) -> (b: bool)
    ensures
        b == occurs_at(s@, p@, i as int),
{
    if i > s.len() || p.len() > s.len() - i {
        return false;
    }
    let mut k: usize = 0;
    while k < p.len()
        invariant
            k <= p.len(),
            i + p.len() <= s.len(),
            forall|m: int| 0 <= m < k ==> s@[i + m] == p@[m],
        decreases p.len() - k,
    {
        if s[i + k] != p[k] {
            assert(s@.subrange(i as int, i + p.len())[k as int] != p@[k as int]);
            return false;
        }
        k += 1;
    }
    assert(s@.subrange(i as int, i + p.len()) == p@);
    true
}

/// `str::contains` on characters.
pub fn contains_chars(s: &[char], p: &[char]) -> (b: bool)
    ensures
        b == contains(s@, p@),
{
    if p.len() > s.len() {
        assert forall|i: int| !occurs_at(s@, p@, i) by {}
        return false;
    }
    let last = s.len() - p.len();
    let mut i: usize = 0;
    while i < last
        invariant
            last == s.len() - p.len(),
            i <= last,
            forall|k: int| 0 <= k < i ==> !occurs_at(s@, p@, k),
        decreases last - i,
    {
        if occurs_at_exec(s, p, i) {
            return true;
        }
        i += 1;
    }
    if occurs_at_exec(s, p, last) {
        return true;
    }
    assert forall|k: int| !occurs_at(s@, p@, k) by {
        if 0 <= k && k < i {
        }
    }
    false
}

/// `str::contains` with a literal pattern.
pub fn contains_lit(s: &[char], p: &str) -> (b: bool)
    ensures
        b == contains(s@, p@),
{
    let pc = chars_of(p);
    contains_chars(s, &pc)
}

/// `str::starts_with` on characters.
pub fn starts_with_chars(s: &[char], p: &[char]) -> (b: bool)
    ensures
        b == starts_with(s@, p@),
{
    occurs_at_exec(s, p, 0)
}

/// `str::ends_with` on characters.
pub fn ends_with_chars(s: &[char], p: &[char]) -> (b: bool)
    ensures
        b == ends_with(s@, p@),
{
    if p.len() > s.len() {
        return false;
    }
    occurs_at_exec(s, p, s.len() - p.len())
}

/// `str::ends_with` with a single character.
pub fn ends_with_char(s: &[char], c: char) -> (b: bool)
    ensures
        b == (s@.len() > 0 && s@.last() == c),
{
    s.len() > 0 && s[s.len() - 1] == c
}

/// `str::starts_with` with a single character.
pub fn starts_with_char(s: &[char], c: char) -> (b: bool)
    ensures
        b == (s@.len() > 0 && s@[0] == c),
{
    s.len() > 0 && s[0] == c
}

/// `char::to_ascii_lowercase`.
pub fn ascii_lower_exec(c: char) -> (out: u32)
    ensures
        out == ascii_lower(c),
{
    let v = c as u32;
    if 0x41 <= v && v <= 0x5a {
        v + 32
    } else {
        v
    }
}

/// `str::eq_ignore_ascii_case` against a literal.
pub fn eq_ignore_ascii_case_lit(a: &[char], b: &str) -> (r: bool)
    ensures
        r == eq_ignore_ascii_case(a@, b@),
{
    let bc = chars_of(b);
    if a.len() != bc.len() {
        return false;
    }
    let mut i: usize = 0;
    while i < a.len()
        invariant
            i <= a.len() == bc.len(),
            bc@ == b@,
            forall|k: int| 0 <= k < i ==> ascii_lower(a@[k]) == ascii_lower(bc@[k]),
        decreases a.len() - i,
    {
        if ascii_lower_exec(a[i]) != ascii_lower_exec(bc[i]) {
            return false;
        }
        i += 1;
    }
    true
}

/// The number of bytes that encode one character in UTF-8.
fn utf8_width(c: char) -> (w: usize)
    ensures
        w == vstd::utf8::encode_scalar(c as u32).len(),
{
    let v = c as u32;
    if v <= 0x7f {
        1
    } else if v <= 0x7ff {
        2
    } else if v <= 0xffff {
        3
    } else {
        4
    }
}

/// Whether the UTF-8 encoding of `s` is longer than `limit` bytes.
pub fn utf8_len_exceeds(s: &[char], limit: usize) -> (b: bool)
    ensures
        b == (utf8_len(s@) > limit),
{
    let mut acc: usize = 0;
    let mut i: usize = s.len();
    assert(s@.skip(s.len() as int) =~= Seq::<char>::empty());
    while i > 0
        invariant
            i <= s.len(),
            acc <= limit,
            acc == utf8_len(s@.skip(i as int)),
        decreases i,
    {
        let w = utf8_width(s[i - 1]);
        proof {
            assert(s@.skip(i - 1).drop_first() =~= s@.skip(i as int));
            assert(s@.skip(i - 1)[0] == s@[i - 1]);
        }
        if w > limit - acc {
            proof {
                lemma_utf8_len_suffix(s@, i - 1);
            }
            return true;
        }
        acc = acc + w;
        i -= 1;
    }
    assert(s@.skip(0) == s@);
    false
}

/// A suffix never encodes to more bytes than the whole text.
proof fn lemma_utf8_len_suffix(s: Seq<char>, i: int)
    requires
        0 <= i <= s.len(),
    ensures
        utf8_len(s.skip(i)) <= utf8_len(s),
    decreases i,
{
    if i > 0 {
        lemma_utf8_len_suffix(s.drop_first(), i - 1);
        assert(s.drop_first().skip(i - 1) =~= s.skip(i));
    } else {
        assert(s.skip(0) == s);
    }
}

/// The character for a decimal digit.
pub fn digit_char_exec(d: u128) -> (c: char)
    requires
        d < 10,
    ensures
        c == digit_char(d as int),
{
    if d == 0 {
        '0'
    } else if d == 1 {
        '1'
    } else if d == 2 {
        '2'
    } else if d == 3 {
        '3'
    } else if d == 4 {
        '4'
    } else if d == 5 {
        '5'
    } else if d == 6 {
        '6'
    } else if d == 7 {
        '7'
    } else if d == 8 {
        '8'
    } else {
        '9'
    }
}

/// The decimal rendering of `n`.
pub fn decimal_chars(n: u128) -> (out: Vec<char>)
    ensures
        out@ == decimal(n as nat),
    decreases n,
{
    if n < 10 {
        let mut out: Vec<char> = Vec::new();
        out.push(digit_char_exec(n));
        out
    } else {
        let mut out = decimal_chars(n / 10);
        out.push(digit_char_exec(n % 10));
        out
    }
}

/// The decimal rendering of `n`, padded with a zero to two digits.
pub fn decimal2_chars(n: u128) -> (out: Vec<char>)
    ensures
        out@ == decimal2(n as nat),
{
    if n < 10 {
        let mut out: Vec<char> = Vec::new();
        out.push('0');
        out.push(digit_char_exec(n));
        out
    } else {
        decimal_chars(n)
    }
}

} // verus!
