//! Splitting of input text into lines and of lines into event tokens.
//!
//! Text is modelled as a sequence of characters. Two spec functions say what
//! the input means: `tokens_of` gives the tokens of one line, `trimmed_lines`
//! the lines of a text that define a sequence. `tokenize` and `split_lines`
//! compute them.

use vstd::prelude::*;

verus! {

/// The five ASCII whitespace characters: space, tab, line feed, form feed and
/// carriage return. The tokens of a line are separated by these.
pub open spec fn is_ascii_space(c: char) -> bool {
    c == ' ' || c == '\t' || c == '\n' || c == '\x0C' || c == '\r'
}

/// The characters with the Unicode property `White_Space`. Lines are trimmed
/// of these at both ends.
pub open spec fn is_space(c: char) -> bool {
    let n = c as u32;
    ||| 0x09 <= n <= 0x0D
    ||| n == 0x20
    ||| n == 0x85
    ||| n == 0xA0
    ||| n == 0x1680
    ||| 0x2000 <= n <= 0x200A
    ||| n == 0x2028
    ||| n == 0x2029
    ||| n == 0x202F
    ||| n == 0x205F
    ||| n == 0x3000
}

/// A word holds at least one character, and none that is ASCII whitespace.
pub open spec fn is_word(s: Seq<char>) -> bool {
    s.len() > 0 && forall|k: int| 0 <= k < s.len() ==> !is_ascii_space(#[trigger] s[k])
}

/// The number of characters at the start of `s` that belong to its first
/// token: those before the first ASCII whitespace character.
pub open spec fn token_len(s: Seq<char>) -> nat
    decreases s.len(),
{
    if s.len() == 0 || is_ascii_space(s[0]) {
        0
    } else {
        1 + token_len(s.drop_first())
    }
}

/// The tokens of a line: its maximal runs of characters that are not ASCII
/// whitespace, from left to right.
pub open spec fn tokens_of(s: Seq<char>) -> Seq<Seq<char>>
    decreases s.len(),
{
    if s.len() == 0 {
        Seq::empty()
    } else if is_ascii_space(s[0]) {
        tokens_of(s.drop_first())
    } else {
        let n = token_len(s) as int;
        proof {
            lemma_token_len_bounds(s);
        }
        seq![s.take(n)] + tokens_of(s.skip(n))
    }
}

/// The number of characters of `s` before its first line feed.
pub open spec fn line_len(s: Seq<char>) -> nat
    decreases s.len(),
{
    if s.len() == 0 || s[0] == '\n' {
        0
    } else {
        1 + line_len(s.drop_first())
    }
}

/// `s` without the whitespace at its start.
pub open spec fn trim_start(s: Seq<char>) -> Seq<char>
    decreases s.len(),
{
    if s.len() > 0 && is_space(s.first()) {
        trim_start(s.drop_first())
    } else {
        s
    }
}

/// `s` without the whitespace at its end.
pub open spec fn trim_end(s: Seq<char>) -> Seq<char>
    decreases s.len(),
{
    if s.len() > 0 && is_space(s.last()) {
        trim_end(s.drop_last())
    } else {
        s
    }
}

/// `s` without the whitespace at either end.
pub open spec fn trim(s: Seq<char>) -> Seq<char> {
    trim_end(trim_start(s))
}

/// The lines of `text` that are not blank, each trimmed, in the order of the
/// text. Lines end at a line feed; a line that holds nothing but whitespace
/// is blank and is left out.
pub open spec fn trimmed_lines(text: Seq<char>) -> Seq<Seq<char>>
    decreases text.len(),
{
    if text.len() == 0 {
        Seq::empty()
    } else {
        let n = line_len(text) as int;
        proof {
            lemma_line_len_bounds(text);
        }
        let line = trim(text.take(n));
        let rest = if n < text.len() {
            trimmed_lines(text.skip(n + 1))
        } else {
            Seq::empty()
        };
        if line.len() == 0 {
            rest
        } else {
            seq![line] + rest
        }
    }
}

/// A first token ends within the line, and holds a character where the line
/// starts with one that is no ASCII whitespace.
pub proof fn lemma_token_len_bounds(s: Seq<char>)
    ensures
        token_len(s) <= s.len(),
        s.len() > 0 && !is_ascii_space(s[0]) ==> token_len(s) >= 1,
    decreases s.len(),
{
    if s.len() > 0 && !is_ascii_space(s[0]) {
        lemma_token_len_bounds(s.drop_first());
    }
}

/// A first line ends within the text.
pub proof fn lemma_line_len_bounds(s: Seq<char>)
    ensures
        line_len(s) <= s.len(),
    decreases s.len(),
{
    if s.len() > 0 && s[0] != '\n' {
        lemma_line_len_bounds(s.drop_first());
    }
}

/// The first token of `s` has `n` characters where the first `n` characters
/// of `s` are no ASCII whitespace and the next one, if any, is.
proof fn lemma_token_len_is(s: Seq<char>, n: int)
    requires
        0 <= n <= s.len(),
        forall|k: int| 0 <= k < n ==> !is_ascii_space(#[trigger] s[k]),
        n < s.len() ==> is_ascii_space(s[n]),
    ensures
        token_len(s) == n,
    decreases n,
{
    if n > 0 {
        let t = s.drop_first();
        assert forall|k: int| 0 <= k < n - 1 implies !is_ascii_space(#[trigger] t[k]) by {
            assert(t[k] == s[k + 1]);
        }
        lemma_token_len_is(t, n - 1);
    }
}

/// The first line of `s` has `n` characters where the first `n` characters
/// of `s` are no line feed and the next one, if any, is.
proof fn lemma_line_len_is(s: Seq<char>, n: int)
    requires
        0 <= n <= s.len(),
        forall|k: int| 0 <= k < n ==> #[trigger] s[k] != '\n',
        n < s.len() ==> s[n] == '\n',
    ensures
        line_len(s) == n,
    decreases n,
{
    if n > 0 {
        let t = s.drop_first();
        assert forall|k: int| 0 <= k < n - 1 implies #[trigger] t[k] != '\n' by {
            assert(t[k] == s[k + 1]);
        }
        lemma_line_len_is(t, n - 1);
    }
}

/// Trimming the start of `s` drops its first `a` characters where those are
/// whitespace and the next one, if any, is not.
proof fn lemma_trim_start_is(s: Seq<char>, a: int)
    requires
        0 <= a <= s.len(),
        forall|k: int| 0 <= k < a ==> is_space(#[trigger] s[k]),
        a < s.len() ==> !is_space(s[a]),
    ensures
        trim_start(s) == s.skip(a),
    decreases a,
{
    if a > 0 {
        let t = s.drop_first();
        assert forall|k: int| 0 <= k < a - 1 implies is_space(#[trigger] t[k]) by {
            assert(t[k] == s[k + 1]);
        }
        lemma_trim_start_is(t, a - 1);
        assert(t.skip(a - 1) =~= s.skip(a));
    } else {
        assert(s.skip(0) =~= s);
    }
}

/// Trimming the end of `s` keeps its first `b` characters where all after
/// them are whitespace and the one before, if any, is not.
proof fn lemma_trim_end_is(s: Seq<char>, b: int)
    requires
        0 <= b <= s.len(),
        forall|k: int| b <= k < s.len() ==> is_space(#[trigger] s[k]),
        b > 0 ==> !is_space(s[b - 1]),
    ensures
        trim_end(s) == s.take(b),
    decreases s.len() - b,
{
    if b < s.len() {
        let t = s.drop_last();
        lemma_trim_end_is(t, b);
        assert(t.take(b) =~= s.take(b));
    } else {
        assert(s.take(b) =~= s);
    }
}

/// No character of a first token is ASCII whitespace.
proof fn lemma_token_len_chars(s: Seq<char>)
    ensures
        token_len(s) <= s.len(),
        forall|k: int| 0 <= k < token_len(s) ==> !is_ascii_space(#[trigger] s[k]),
    decreases s.len(),
{
    if s.len() > 0 && !is_ascii_space(s[0]) {
        let t = s.drop_first();
        lemma_token_len_chars(t);
        assert forall|k: int| 0 <= k < token_len(s) implies !is_ascii_space(#[trigger] s[k]) by {
            if k > 0 {
                assert(s[k] == t[k - 1]);
            }
        }
    }
}

/// Every token is a word: it holds at least one character, and none that
/// is ASCII whitespace.
pub proof fn lemma_tokens_are_words(s: Seq<char>)
    ensures
        forall|i: int| 0 <= i < tokens_of(s).len() ==> is_word(#[trigger] tokens_of(s)[i]),
    decreases s.len(),
{
    if s.len() == 0 {
    } else if is_ascii_space(s[0]) {
        lemma_tokens_are_words(s.drop_first());
        assert(tokens_of(s) == tokens_of(s.drop_first()));
    } else {
        let n = token_len(s) as int;
        lemma_token_len_bounds(s);
        lemma_token_len_chars(s);
        lemma_tokens_are_words(s.skip(n));
        let rest = tokens_of(s.skip(n));
        assert forall|i: int| 0 <= i < tokens_of(s).len() implies is_word(
            #[trigger] tokens_of(s)[i],
        ) by {
            if i > 0 {
                assert(tokens_of(s)[i] == rest[i - 1]);
            }
        }
    }
}

/// A line that starts with a character that is no whitespace holds a
/// token.
pub proof fn lemma_line_has_token(line: Seq<char>)
    requires
        line.len() > 0,
        !is_space(line[0]),
    ensures
        tokens_of(line).len() > 0,
{
}

/// What is left of a trimmed line neither starts nor ends with whitespace.
pub proof fn lemma_trim_ends(s: Seq<char>)
    ensures
        trim(s).len() > 0 ==> !is_space(trim(s).first()) && !is_space(trim(s).last()),
{
    lemma_trim_start_first(s);
    lemma_trim_end_prefix(trim_start(s));
}

/// What is left when the start is trimmed does not start with whitespace.
proof fn lemma_trim_start_first(s: Seq<char>)
    ensures
        trim_start(s).len() > 0 ==> !is_space(trim_start(s).first()),
    decreases s.len(),
{
    if s.len() > 0 && is_space(s.first()) {
        lemma_trim_start_first(s.drop_first());
    }
}

/// What is left when the end is trimmed is a start of the whole, and does
/// not end with whitespace.
proof fn lemma_trim_end_prefix(s: Seq<char>)
    ensures
        trim_end(s).len() <= s.len(),
        trim_end(s) == s.take(trim_end(s).len() as int),
        trim_end(s).len() > 0 ==> !is_space(trim_end(s).last()),
    decreases s.len(),
{
    if s.len() > 0 && is_space(s.last()) {
        let t = s.drop_last();
        lemma_trim_end_prefix(t);
        assert(t.take(trim_end(t).len() as int) =~= s.take(trim_end(t).len() as int));
    } else {
        assert(s.take(s.len() as int) =~= s);
    }
}

/// Every line that `trimmed_lines` gives holds a token.
pub proof fn lemma_trimmed_lines_hold_tokens(text: Seq<char>)
    ensures
        forall|i: int|
            0 <= i < trimmed_lines(text).len() ==> tokens_of(#[trigger] trimmed_lines(text)[i]).len()
                > 0,
    decreases text.len(),
{
    if text.len() > 0 {
        let n = line_len(text) as int;
        lemma_line_len_bounds(text);
        let line = trim(text.take(n));
        lemma_trim_ends(text.take(n));
        let rest = if n < text.len() {
            trimmed_lines(text.skip(n + 1))
        } else {
            Seq::empty()
        };
        if n < text.len() {
            lemma_trimmed_lines_hold_tokens(text.skip(n + 1));
        }
        assert forall|i: int| 0 <= i < trimmed_lines(text).len() implies tokens_of(
            #[trigger] trimmed_lines(text)[i],
        ).len() > 0 by {
            if line.len() == 0 {
                assert(trimmed_lines(text)[i] == rest[i]);
            } else if i == 0 {
                lemma_line_has_token(line);
            } else {
                assert(trimmed_lines(text)[i] == rest[i - 1]);
            }
        }
    }
}

/// The first line of `x + z` is that of `x` where `x` holds a line feed,
/// and else goes on into `z`.
proof fn lemma_line_len_concat(x: Seq<char>, z: Seq<char>)
    ensures
        line_len(x) <= x.len(),
        line_len(x) < x.len() ==> line_len(x + z) == line_len(x),
        line_len(x) == x.len() ==> line_len(x + z) == x.len() + line_len(z),
    decreases x.len(),
{
    lemma_line_len_bounds(x);
    if x.len() == 0 {
        assert(x + z =~= z);
    } else {
        assert((x + z)[0] == x[0]);
        if x[0] != '\n' {
            lemma_line_len_concat(x.drop_first(), z);
            assert((x + z).drop_first() =~= x.drop_first() + z);
        }
    }
}

/// A text that holds nothing but whitespace has no line that counts.
pub proof fn lemma_blank_text(w: Seq<char>)
    requires
        forall|k: int| 0 <= k < w.len() ==> is_space(#[trigger] w[k]),
    ensures
        trimmed_lines(w).len() == 0,
    decreases w.len(),
{
    if w.len() > 0 {
        let n = line_len(w) as int;
        lemma_line_len_bounds(w);
        let line = w.take(n);
        lemma_trim_start_is(line, n);
        assert(line.skip(n).len() == 0);
        if n < w.len() {
            let rest = w.skip(n + 1);
            assert forall|k: int| 0 <= k < rest.len() implies is_space(#[trigger] rest[k]) by {
                assert(rest[k] == w[n + 1 + k]);
            }
            lemma_blank_text(rest);
        }
    }
}

/// A line feed parts a text: the lines of the whole are the lines of what
/// stands before it, followed by the lines of what stands after it.
pub proof fn lemma_trimmed_lines_concat(x: Seq<char>, y: Seq<char>)
    ensures
        trimmed_lines(x + seq!['\n'] + y) == trimmed_lines(x) + trimmed_lines(y),
    decreases x.len(),
{
    let z = seq!['\n'] + y;
    let t = x + seq!['\n'] + y;
    assert(t =~= x + z);
    let n = line_len(x) as int;
    lemma_line_len_concat(x, z);
    assert(line_len(z) == 0);
    assert(line_len(t) == n);
    assert(t.take(n) =~= x.take(n));
    if x.len() == 0 {
        assert(t.skip(1) =~= y);
        assert(trimmed_lines(x) + trimmed_lines(y) =~= trimmed_lines(y));
    } else if n < x.len() {
        let tail = x.skip(n + 1);
        lemma_trimmed_lines_concat(tail, y);
        assert(t.skip(n + 1) =~= tail + seq!['\n'] + y);
        let line = trim(x.take(n));
        if line.len() == 0 {
        } else {
            assert(seq![line] + (trimmed_lines(tail) + trimmed_lines(y)) =~= (seq![line]
                + trimmed_lines(tail)) + trimmed_lines(y));
        }
    } else {
        assert(t.skip(n + 1) =~= y);
        let line = trim(x.take(n));
        if line.len() == 0 {
            assert(trimmed_lines(x) =~= Seq::<Seq<char>>::empty());
            assert(trimmed_lines(x) + trimmed_lines(y) =~= trimmed_lines(y));
        } else {
            assert(trimmed_lines(x) =~= seq![line]);
        }
    }
}

/// Blank lines count for nothing: a text has the same lines with or without
/// blank lines between two of its lines.
pub proof fn lemma_blank_lines_are_skipped(before: Seq<char>, blank: Seq<char>, after: Seq<char>)
    requires
        forall|k: int| 0 <= k < blank.len() ==> is_space(#[trigger] blank[k]),
    ensures
        trimmed_lines(before + seq!['\n'] + blank + seq!['\n'] + after) == trimmed_lines(
            before + seq!['\n'] + after,
        ),
{
    let head = before + seq!['\n'] + blank;
    lemma_trimmed_lines_concat(head, after);
    lemma_trimmed_lines_concat(before, blank);
    lemma_trimmed_lines_concat(before, after);
    lemma_blank_text(blank);
    assert(trimmed_lines(before) + trimmed_lines(blank) =~= trimmed_lines(before));
}

/// `String::push` appends one character: afterwards the string holds what it
/// held before, followed by `ch`. Nothing here proves it.
pub assume_specification[ String::push ](s: &mut String, ch: char)
    ensures
        final(s)@ == old(s)@.push(ch),
;

/// Decides `is_ascii_space`.
pub fn ascii_space(c: char) -> (b: bool)
    ensures
        b == is_ascii_space(c),
{
    c == ' ' || c == '\t' || c == '\n' || c == '\x0C' || c == '\r'
}

/// Decides `is_space`.
pub fn space(c: char) -> (b: bool)
    ensures
        b == is_space(c),
{
    let n: u32 = c as u32;
    (0x09 <= n && n <= 0x0D) || n == 0x20 || n == 0x85 || n == 0xA0 || n == 0x1680 || (0x2000 <= n
        && n <= 0x200A) || n == 0x2028 || n == 0x2029 || n == 0x202F || n == 0x205F || n == 0x3000
}

/// The characters of `s`, in order.
fn chars_of(s: &str) -> (chars: Vec<char>)
    ensures
        chars@ == s@,
{
    let mut chars: Vec<char> = Vec::new();
    for c in it: s.chars()
        invariant
            it.seq() == s@,
            chars@ == s@.take(it.index() as int),
    {
        chars.push(c);
    }
    chars
}

/// The string made of the characters of `chars` from `from` up to, not
/// including, `to`.
fn string_of(chars: &Vec<char>, from: usize, to: usize) -> (s: String)
    requires
        from <= to <= chars.len(),
    ensures
        s@ == chars@.subrange(from as int, to as int),
{
    let mut s = String::new();
    let mut i: usize = from;
    while i < to
        invariant
            from <= i <= to <= chars.len(),
            s@ == chars@.subrange(from as int, i as int),
        decreases to - i,
    {
        s.push(chars[i]);
        i += 1;
        assert(s@ =~= chars@.subrange(from as int, i as int));
    }
    s
}

/// Splits a line into its tokens.
pub fn tokenize(line: &str) -> (tokens: Vec<String>)
    ensures
        tokens.deep_view() == tokens_of(line@),
{
    let chars = chars_of(line);
    let n = chars.len();
    let mut tokens: Vec<String> = Vec::new();
    let mut i: usize = 0;
    assert(chars@.skip(0) =~= chars@);
    assert(tokens.deep_view() =~= Seq::<Seq<char>>::empty());
    while i < n
        invariant
            n == chars.len(),
            i <= n,
            tokens.deep_view() + tokens_of(chars@.skip(i as int)) == tokens_of(chars@),
        decreases n - i,
    {
        let ghost rest = chars@.skip(i as int);
        if ascii_space(chars[i]) {
            assert(rest.drop_first() =~= chars@.skip(i + 1));
            i += 1;
        } else {
            let start = i;
            while i < n && !ascii_space(chars[i])
                invariant
                    n == chars.len(),
                    start <= i <= n,
                    forall|k: int| start <= k < i ==> !is_ascii_space(#[trigger] chars@[k]),
                decreases n - i,
            {
                i += 1;
            }
            let token = string_of(&chars, start, i);
            proof {
                let len = i - start;
                assert forall|k: int| 0 <= k < len implies !is_ascii_space(#[trigger] rest[k]) by {
                    assert(rest[k] == chars@[start + k]);
                }
                lemma_token_len_is(rest, len);
                assert(rest.take(len) =~= chars@.subrange(start as int, i as int));
                assert(rest.skip(len) =~= chars@.skip(i as int));
            }
            let ghost before = tokens.deep_view();
            tokens.push(token);
            assert(tokens.deep_view() =~= before.push(token@));
            assert(before.push(token@) + tokens_of(chars@.skip(i as int)) =~= before + (seq![
                token@,
            ] + tokens_of(chars@.skip(i as int))));
        }
    }
    assert(tokens.deep_view() + Seq::<Seq<char>>::empty() =~= tokens.deep_view());
    tokens
}

/// Splits a text into its lines, trims each and leaves the blank ones out.
pub fn split_lines(text: &str) -> (lines: Vec<String>)
    ensures
        lines.deep_view() == trimmed_lines(text@),
{
    let chars = chars_of(text);
    let n = chars.len();
    let mut lines: Vec<String> = Vec::new();
    let mut i: usize = 0;
    assert(chars@.skip(0) =~= chars@);
    assert(lines.deep_view() =~= Seq::<Seq<char>>::empty());
    while i < n
        invariant
            n == chars.len(),
            i <= n,
            lines.deep_view() + trimmed_lines(chars@.skip(i as int)) == trimmed_lines(chars@),
        decreases n - i,
    {
        let ghost rest = chars@.skip(i as int);
        let start = i;
        while i < n && chars[i] != '\n'
            invariant
                n == chars.len(),
                start <= i <= n,
                forall|k: int| start <= k < i ==> #[trigger] chars@[k] != '\n',
            decreases n - i,
        {
            i += 1;
        }
        let end = i;
        let mut a: usize = start;
        while a < end && space(chars[a])
            invariant
                start <= a <= end <= n,
                n == chars.len(),
                forall|k: int| start <= k < a ==> is_space(#[trigger] chars@[k]),
            decreases end - a,
        {
            a += 1;
        }
        let mut b: usize = end;
        while b > a && space(chars[b - 1])
            invariant
                a <= b <= end <= n,
                n == chars.len(),
                forall|k: int| b <= k < end ==> is_space(#[trigger] chars@[k]),
            decreases b,
        {
            b -= 1;
        }
        let ghost before = lines.deep_view();
        proof {
            let len = end - start;
            assert forall|k: int| 0 <= k < len implies #[trigger] rest[k] != '\n' by {
                assert(rest[k] == chars@[start + k]);
            }
            lemma_line_len_is(rest, len);
            let line = rest.take(len);
            assert forall|k: int| 0 <= k < a - start implies is_space(#[trigger] line[k]) by {
                assert(line[k] == chars@[start + k]);
            }
            lemma_trim_start_is(line, a - start);
            let tail = line.skip(a - start);
            assert forall|k: int| b - a <= k < tail.len() implies is_space(#[trigger] tail[k]) by {
                assert(tail[k] == chars@[a + k]);
            }
            lemma_trim_end_is(tail, b - a);
            assert(tail.take(b - a) =~= chars@.subrange(a as int, b as int));
            assert(trim(line) == chars@.subrange(a as int, b as int));
            if end < n {
                assert(rest.skip(len + 1) =~= chars@.skip(end + 1));
            }
        }
        if a < b {
            let line = string_of(&chars, a, b);
            lines.push(line);
            assert(lines.deep_view() =~= before.push(line@));
        }
        if i < n {
            i += 1;
        }
        proof {
            let next = trimmed_lines(chars@.skip(i as int));
            if end == n {
                assert(chars@.skip(i as int).len() == 0);
            }
            if a < b {
                let line = chars@.subrange(a as int, b as int);
                assert(before.push(line) + next =~= before + (seq![line] + next));
            }
        }
    }
    assert(lines.deep_view() + Seq::<Seq<char>>::empty() =~= lines.deep_view());
    lines
}

} // verus!
