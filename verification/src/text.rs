//! Character-level helpers shared by every module that shapes text: ellipsis
//! truncation, title cleaning, blank-line handling and the lexicographic order
//! used to sort attention items.

use vstd::prelude::*;

verus! {

// ---------------------------------------------------------------------------
// Unicode classification (std's tables, not rebuilt here)
// ---------------------------------------------------------------------------

/// Whether `c` has Unicode's Alphabetic or Numeric property, as std decides it.
pub uninterp spec fn alphanumeric(c: char) -> bool;

/// Whether `c` has Unicode's White_Space property, as std decides it.
pub uninterp spec fn whitespace(c: char) -> bool;

/// Calls `char::is_alphanumeric`. The contract only names its answer: the
/// Unicode tables behind it are std's and are not restated here.
#[verifier::external_body]
pub fn is_alphanumeric(c: char) -> (r: bool)
    ensures
        r == alphanumeric(c),
{
    c.is_alphanumeric()
}

/// Calls `char::is_whitespace`, the predicate `str::trim` strips by. The
/// contract only names its answer.
#[verifier::external_body]
pub fn is_whitespace(c: char) -> (r: bool)
    ensures
        r == whitespace(c),
{
    c.is_whitespace()
}

/// Calls `String::push`, which appends one character.
#[verifier::external_body]
fn push_char(s: &mut String, c: char)
    ensures
        final(s)@ == old(s)@.push(c),
{
    s.push(c)
}

// ---------------------------------------------------------------------------
// Conversions between `str` and character vectors
// ---------------------------------------------------------------------------

/// The characters of `s`, in order.
pub fn chars_of(s: &str) -> (out: Vec<char>)
    ensures
        out@ == s@,
{
    let mut out: Vec<char> = Vec::new();
    for c in it: s.chars()
        invariant
            out@ == it.seq().take(it.index() as int),
            it.seq() == s@,
    {
        out.push(c);
    }
    out
}

/// The characters `v[from..to]` as a `String`.
pub fn string_of(v: &Vec<char>, from: usize, to: usize) -> (out: String)
    requires
        from <= to <= v.len(),
    ensures
        out@ == v@.subrange(from as int, to as int),
{
    let mut out = String::new();
    let mut i = from;
    while i < to
        invariant
            from <= i <= to <= v.len(),
            out@ == v@.subrange(from as int, i as int),
        decreases to - i,
    {
        push_char(&mut out, v[i]);
        assert(v@.subrange(from as int, i + 1) == v@.subrange(from as int, i as int).push(v@[i as int]));
        i = i + 1;
    }
    out
}

/// Whether two strings hold the same characters.
pub fn same_text(a: &str, b: &str) -> (r: bool)
    ensures
        r == (a@ == b@),
{
    let x = chars_of(a);
    let y = chars_of(b);
    if x.len() != y.len() {
        return false;
    }
    let mut i: usize = 0;
    while i < x.len()
        invariant
            x@ == a@,
            y@ == b@,
            x.len() == y.len(),
            i <= x.len(),
            forall|k: int| 0 <= k < i ==> x@[k] == y@[k],
        decreases x.len() - i,
    {
        if x[i] != y[i] {
            return false;
        }
        i = i + 1;
    }
    assert(x@ =~= y@);
    true
}

/// Whether `s` begins with the characters of `prefix`.
pub fn starts_with_text(s: &str, prefix: &str) -> (r: bool)
    ensures
        r == (prefix@.len() <= s@.len() && s@.take(prefix@.len() as int) == prefix@),
{
    let x = chars_of(s);
    let p = chars_of(prefix);
    if p.len() > x.len() {
        return false;
    }
    let mut i: usize = 0;
    while i < p.len()
        invariant
            x@ == s@,
            p@ == prefix@,
            p.len() <= x.len(),
            i <= p.len(),
            forall|k: int| 0 <= k < i ==> x@[k] == p@[k],
        decreases p.len() - i,
    {
        if x[i] != p[i] {
            assert(s@.take(prefix@.len() as int)[i as int] != prefix@[i as int]);
            return false;
        }
        i = i + 1;
    }
    assert(s@.take(prefix@.len() as int) =~= prefix@);
    true
}

// ---------------------------------------------------------------------------
// Numbers and padding
// ---------------------------------------------------------------------------

/// The decimal digit `d`, for `d < 10`.
pub open spec fn digit_char(d: nat) -> char {
    if d == 0 {
        '0'
    } else if d == 1 {
        '1'
    } else if d == 2 {
        '2'
    } else if d == 3 {
        '3'
    } else if d == 4 {
        '4'
    } else if d == 5 {
        '5'
    } else if d == 6 {
        '6'
    } else if d == 7 {
        '7'
    } else if d == 8 {
        '8'
    } else {
        '9'
    }
}

/// `n` written in decimal with no leading zeros, as `{}` formats an integer.
pub open spec fn decimal_text(n: nat) -> Seq<char>
    decreases n,
{
    if n < 10 {
        seq![digit_char(n)]
    } else {
        decimal_text(n / 10).push(digit_char(n % 10))
    }
}

fn digit(d: u64) -> (c: char)
    requires
        d < 10,
    ensures
        c == digit_char(d as nat),
{
    match d {
        0 => '0',
        1 => '1',
        2 => '2',
        3 => '3',
        4 => '4',
        5 => '5',
        6 => '6',
        7 => '7',
        8 => '8',
        _ => '9',
    }
}

/// `n` in decimal.
pub fn decimal(n: u64) -> (s: String)
    ensures
        s@ == decimal_text(n as nat),
    decreases n,
{
    if n < 10 {
        let mut s = String::new();
        push_char(&mut s, digit(n));
        assert(s@ =~= seq![digit_char(n as nat)]);
        s
    } else {
        let mut s = decimal(n / 10);
        push_char(&mut s, digit(n % 10));
        s
    }
}

/// `n` written in decimal, with a minus sign when it is negative.
pub open spec fn signed_decimal_text(n: int) -> Seq<char> {
    if n < 0 {
        seq!['-'] + decimal_text((-n) as nat)
    } else {
        decimal_text(n as nat)
    }
}

/// `n` in decimal, with a minus sign when it is negative.
pub fn signed_decimal(n: i64) -> (s: String)
    ensures
        s@ == signed_decimal_text(n as int),
{
    if n < 0 {
        let magnitude: u64 = if n == i64::MIN {
            9223372036854775808
        } else {
            (-n) as u64
        };
        let mut s = String::new();
        push_char(&mut s, '-');
        s.append(decimal(magnitude).as_str());
        assert(s@ =~= seq!['-'] + decimal_text((-n) as nat));
        s
    } else {
        decimal(n as u64)
    }
}

/// `s` padded with spaces on the right to `width` characters, as `{:<width}`
/// formats it; unchanged when it is already that wide.
pub open spec fn padded(s: Seq<char>, width: nat) -> Seq<char> {
    if s.len() >= width {
        s
    } else {
        s + Seq::new((width - s.len()) as nat, |i: int| ' ')
    }
}

/// Padding keeps the text and only adds spaces after it, up to the width.
pub proof fn padding_only_adds_trailing_spaces(s: Seq<char>, width: nat)
    ensures
        padded(s, width).len() == if s.len() >= width { s.len() } else { width },
        padded(s, width).take(s.len() as int) == s,
        forall|i: int| s.len() <= i < padded(s, width).len() ==> #[trigger] padded(s, width)[i] == ' ',
        padded_left(s, width).len() == if s.len() >= width { s.len() } else { width },
        padded_left(s, width).skip(padded_left(s, width).len() - s.len()) == s,
        forall|i: int| 0 <= i < padded_left(s, width).len() - s.len() ==> #[trigger] padded_left(s, width)[i] == ' ',
{
    assert(padded(s, width).take(s.len() as int) =~= s);
    assert(padded_left(s, width).skip(padded_left(s, width).len() - s.len()) =~= s);
}

/// Left-align `s` in a field `width` characters wide.
pub fn pad_right(s: &str, width: usize) -> (out: String)
    ensures
        out@ == padded(s@, width as nat),
{
    let cs = chars_of(s);
    let mut out = string_of(&cs, 0, cs.len());
    assert(cs@.subrange(0, cs@.len() as int) =~= s@);
    let mut n = cs.len();
    while n < width
        invariant
            cs@ == s@,
            cs@.len() <= n <= width || (n == cs@.len() && n >= width),
            out@ == s@ + Seq::new((n - s@.len()) as nat, |i: int| ' '),
        decreases width - n,
    {
        push_char(&mut out, ' ');
        assert(out@ =~= s@ + Seq::new((n + 1 - s@.len()) as nat, |i: int| ' '));
        n = n + 1;
    }
    assert(out@ =~= padded(s@, width as nat));
    out
}

/// `s` padded with spaces on the left to `width` characters, as `{:>width}`
/// formats it; unchanged when it is already that wide.
pub open spec fn padded_left(s: Seq<char>, width: nat) -> Seq<char> {
    if s.len() >= width {
        s
    } else {
        Seq::new((width - s.len()) as nat, |i: int| ' ') + s
    }
}

/// Right-align `s` in a field `width` characters wide.
pub fn pad_left(s: &str, width: usize) -> (out: String)
    ensures
        out@ == padded_left(s@, width as nat),
{
    let n = s.unicode_len();
    let mut out = String::new();
    let mut k = n;
    while k < width
        invariant
            n == s@.len(),
            n <= k,
            k <= width || k == n,
            out@ == Seq::new((k - n) as nat, |i: int| ' '),
        decreases width - k,
    {
        push_char(&mut out, ' ');
        assert(out@ =~= Seq::new((k + 1 - n) as nat, |i: int| ' '));
        k = k + 1;
    }
    out.append(s);
    assert(out@ =~= padded_left(s@, width as nat));
    out
}

// ---------------------------------------------------------------------------
// Truncation
// ---------------------------------------------------------------------------

/// The ellipsis that marks a cut.
pub open spec fn ellipsis() -> char {
    '\u{2026}'
}

/// `s` fitted into `max` characters: unchanged when it fits, otherwise its first
/// `max - 1` characters and an ellipsis; nothing at all when `max` is zero.
pub open spec fn truncated(s: Seq<char>, max: nat) -> Seq<char> {
    if s.len() <= max {
        s
    } else if max == 0 {
        Seq::empty()
    } else {
        s.take(max - 1).push(ellipsis())
    }
}

/// Fit a string into `max` display columns, ellipsising rather than splitting
/// a character.
pub fn truncate(s: &str, max: usize) -> (out: String)
    ensures
        out@ == truncated(s@, max as nat),
        out@.len() <= max,
        s@.len() <= max ==> out@ == s@,
        s@.len() > max > 0 ==> out@.len() == max && out@.take(max - 1) == s@.take(max - 1) && out@.last() == '\u{2026}',
        s@.len() > max == 0 ==> out@.len() == 0,
{
    let cs = chars_of(s);
    let n = cs.len();
    if n <= max {
        return string_of(&cs, 0, n);
    }
    if max == 0 {
        return String::new();
    }
    let mut out = string_of(&cs, 0, max - 1);
    push_char(&mut out, '\u{2026}');
    proof {
        assert(cs@.subrange(0, max - 1) =~= s@.take(max - 1));
    }
    assert(out@ =~= truncated(s@, max as nat));
    out
}

/// Cutting an already truncated string to the same width changes nothing.
pub proof fn truncation_is_idempotent(s: Seq<char>, max: nat)
    ensures
        truncated(truncated(s, max), max) == truncated(s, max),
{
}

// ---------------------------------------------------------------------------
// Trimming and title cleaning
// ---------------------------------------------------------------------------

/// `s` without its leading characters that are not alphanumeric.
pub open spec fn skip_decoration(s: Seq<char>) -> Seq<char>
    decreases s.len(),
{
    if s.len() == 0 || alphanumeric(s[0]) {
        s
    } else {
        skip_decoration(s.drop_first())
    }
}

/// `s` without leading whitespace.
pub open spec fn trim_start(s: Seq<char>) -> Seq<char>
    decreases s.len(),
{
    if s.len() == 0 || !whitespace(s[0]) {
        s
    } else {
        trim_start(s.drop_first())
    }
}

/// `s` without trailing whitespace.
pub open spec fn trim_end(s: Seq<char>) -> Seq<char>
    decreases s.len(),
{
    if s.len() == 0 || !whitespace(s.last()) {
        s
    } else {
        trim_end(s.drop_last())
    }
}

/// `s` without leading or trailing whitespace, as `str::trim` leaves it.
pub open spec fn trim(s: Seq<char>) -> Seq<char> {
    trim_end(trim_start(s))
}

/// Whether every character of `s` is whitespace (so `trim` leaves nothing).
pub open spec fn blank(s: Seq<char>) -> bool {
    forall|i: int| 0 <= i < s.len() ==> whitespace(#[trigger] s[i])
}

/// The title with its leading decoration removed, then trimmed.
pub open spec fn cleaned_title(s: Seq<char>) -> Seq<char> {
    trim(skip_decoration(s))
}

/// No character of `s` counts as both alphanumeric and whitespace.
pub open spec fn classes_apart(s: Seq<char>) -> bool {
    forall|i: int| 0 <= i < s.len() ==> !(alphanumeric(#[trigger] s[i]) && whitespace(s[i]))
}

proof fn lemma_skip_decoration(s: Seq<char>)
    requires
        classes_apart(s),
    ensures
        classes_apart(skip_decoration(s)),
        skip_decoration(s).len() == 0 || alphanumeric(skip_decoration(s)[0]),
    decreases s.len(),
{
    if s.len() > 0 && !alphanumeric(s[0]) {
        assert forall|i: int| 0 <= i < s.drop_first().len() implies !(alphanumeric(#[trigger] s.drop_first()[i])
            && whitespace(s.drop_first()[i])) by {
            assert(s.drop_first()[i] == s[i + 1]);
        }
        lemma_skip_decoration(s.drop_first());
    }
}

proof fn lemma_trim_end(s: Seq<char>)
    ensures
        trim_end(s).len() <= s.len(),
        trim_end(s) == s.take(trim_end(s).len() as int),
        trim_end(s).len() == 0 || !whitespace(trim_end(s).last()),
    decreases s.len(),
{
    if s.len() > 0 && whitespace(s.last()) {
        lemma_trim_end(s.drop_last());
        assert(s.drop_last().take(trim_end(s).len() as int) =~= s.take(trim_end(s).len() as int));
    } else {
        assert(s.take(s.len() as int) =~= s);
    }
}

/// A cleaned title starts with an alphanumeric character and ends with one
/// that is not whitespace, so cleaning it again changes nothing. This holds of
/// titles none of whose characters counts as both alphanumeric and whitespace.
pub proof fn cleaning_is_idempotent(s: Seq<char>)
    requires
        classes_apart(s),
    ensures
        cleaned_title(s).len() == 0 || alphanumeric(cleaned_title(s)[0]),
        cleaned_title(s).len() == 0 || !whitespace(cleaned_title(s).last()),
        cleaned_title(cleaned_title(s)) == cleaned_title(s),
{
    let d = skip_decoration(s);
    lemma_skip_decoration(s);
    if d.len() > 0 {
        assert(!whitespace(d[0]));
    }
    assert(trim_start(d) == d);
    lemma_trim_end(d);
    let r = trim_end(d);
    assert(r == cleaned_title(s));
    if r.len() > 0 {
        assert(r[0] == d[0]);
        assert(!whitespace(r[0]));
        assert(skip_decoration(r) == r);
        assert(trim_start(r) == r);
        assert(trim_end(r) == r);
    } else {
        assert(skip_decoration(r) == r);
        assert(trim_start(r) == r);
        assert(trim_end(r) == r);
    }
}

/// Index of the first character of `v[from..to]` that `keep` accepts, scanning
/// forward; `to` when there is none. `keep` selects alphanumeric characters when
/// `alnum` is set and non-whitespace ones otherwise.
fn scan_forward(v: &Vec<char>, from: usize, to: usize, alnum: bool) -> (k: usize)
    requires
        from <= to <= v.len(),
    ensures
        from <= k <= to,
        alnum ==> skip_decoration(v@.subrange(from as int, to as int)) == v@.subrange(k as int, to as int),
        !alnum ==> trim_start(v@.subrange(from as int, to as int)) == v@.subrange(k as int, to as int),
{
    let mut k = from;
    while k < to
        invariant
            from <= k <= to <= v.len(),
            alnum ==> skip_decoration(v@.subrange(from as int, to as int))
                == skip_decoration(v@.subrange(k as int, to as int)),
            !alnum ==> trim_start(v@.subrange(from as int, to as int))
                == trim_start(v@.subrange(k as int, to as int)),
        decreases to - k,
    {
        let c = v[k];
        let stop = if alnum { is_alphanumeric(c) } else { !is_whitespace(c) };
        assert(v@.subrange(k as int, to as int).drop_first() =~= v@.subrange(k + 1, to as int));
        if stop {
            return k;
        }
        k = k + 1;
    }
    k
}

/// End of `v[from..to]` once trailing whitespace is removed.
fn scan_backward(v: &Vec<char>, from: usize, to: usize) -> (k: usize)
    requires
        from <= to <= v.len(),
    ensures
        from <= k <= to,
        trim_end(v@.subrange(from as int, to as int)) == v@.subrange(from as int, k as int),
{
    let mut k = to;
    while k > from
        invariant
            from <= k <= to <= v.len(),
            trim_end(v@.subrange(from as int, to as int)) == trim_end(v@.subrange(from as int, k as int)),
        decreases k - from,
    {
        let c = v[k - 1];
        assert(v@.subrange(from as int, k as int).drop_last() =~= v@.subrange(from as int, k - 1));
        if !is_whitespace(c) {
            return k;
        }
        k = k - 1;
    }
    k
}

/// Bounds `[a, b)` of `trim(v[from..to])` within `v`.
fn trim_bounds(v: &Vec<char>, from: usize, to: usize) -> (r: (usize, usize))
    requires
        from <= to <= v.len(),
    ensures
        from <= r.0 <= r.1 <= to,
        trim(v@.subrange(from as int, to as int)) == v@.subrange(r.0 as int, r.1 as int),
{
    let a = scan_forward(v, from, to, false);
    let b = scan_backward(v, a, to);
    (a, b)
}

/// Strip leading decoration from an agent-set terminal title: anything before
/// the first alphanumeric character is a spinner frame or a glyph. The rest is
/// trimmed.
pub fn clean_title(s: &str) -> (out: String)
    ensures
        out@ == cleaned_title(s@),
{
    let cs = chars_of(s);
    let start = scan_forward(&cs, 0, cs.len(), true);
    let (a, b) = trim_bounds(&cs, start, cs.len());
    assert(cs@.subrange(0, cs.len() as int) =~= s@);
    string_of(&cs, a, b)
}

/// Whether `v[from..to]` holds nothing but whitespace.
fn is_blank_range(v: &Vec<char>, from: usize, to: usize) -> (r: bool)
    requires
        from <= to <= v.len(),
    ensures
        r == blank(v@.subrange(from as int, to as int)),
{
    let mut k = from;
    while k < to
        invariant
            from <= k <= to <= v.len(),
            forall|j: int| from <= j < k ==> whitespace(#[trigger] v@[j]),
        decreases to - k,
    {
        if !is_whitespace(v[k]) {
            assert(!whitespace(v@.subrange(from as int, to as int)[k - from]));
            return false;
        }
        k = k + 1;
    }
    assert forall|i: int| 0 <= i < to - from implies whitespace(
        #[trigger] v@.subrange(from as int, to as int)[i],
    ) by {
        assert(v@.subrange(from as int, to as int)[i] == v@[from + i]);
    }
    true
}

/// Whether a string is empty once trimmed.
pub fn is_blank(s: &str) -> (r: bool)
    ensures
        r == blank(s@),
{
    let cs = chars_of(s);
    assert(cs@.subrange(0, cs.len() as int) =~= s@);
    is_blank_range(&cs, 0, cs.len())
}

// ---------------------------------------------------------------------------
// Lines
// ---------------------------------------------------------------------------

/// `s` split at every line feed, the pieces in order (the line feeds dropped).
pub open spec fn split_lines(s: Seq<char>) -> Seq<Seq<char>>
    decreases s.len(),
{
    if s.len() == 0 {
        seq![Seq::<char>::empty()]
    } else {
        let prev = split_lines(s.drop_last());
        if s.last() == '\n' {
            prev.push(Seq::<char>::empty())
        } else {
            prev.update(prev.len() - 1, prev.last().push(s.last()))
        }
    }
}

/// The last of `lines` that is not blank.
pub open spec fn last_nonblank(lines: Seq<Seq<char>>) -> Option<Seq<char>>
    decreases lines.len(),
{
    if lines.len() == 0 {
        None
    } else if !blank(lines.last()) {
        Some(lines.last())
    } else {
        last_nonblank(lines.drop_last())
    }
}

/// What stands in for a message when there is none.
pub open spec fn no_output() -> Seq<char> {
    "no output"@
}

/// The last meaningful line of `s`, trimmed; "no output" when every line is blank.
pub open spec fn last_meaningful_line(s: Seq<char>) -> Seq<char> {
    match last_nonblank(split_lines(s)) {
        Some(line) => trim(line),
        None => no_output(),
    }
}

proof fn lemma_split_lines_nonempty(s: Seq<char>)
    ensures
        split_lines(s).len() >= 1,
    decreases s.len(),
{
    if s.len() > 0 {
        lemma_split_lines_nonempty(s.drop_last());
    }
}

/// The report of a failed process: the last line of its output that says
/// anything, trimmed. A Python traceback ends on the line that matters.
pub fn first_line(s: &str) -> (out: String)
    ensures
        out@ == last_meaningful_line(s@),
{
    let cs = chars_of(s);
    let n = cs.len();
    // `best` is the last complete line seen so far that is not blank;
    // `start` is where the current, unfinished line begins.
    let mut best: Option<(usize, usize)> = None;
    let mut start: usize = 0;
    let mut i: usize = 0;
    proof {
        assert(cs@.take(0) =~= Seq::<char>::empty());
    }
    while i < n
        invariant
            n == cs.len(),
            cs@ == s@,
            start <= i <= n,
            split_lines(cs@.take(i as int)).len() >= 1,
            split_lines(cs@.take(i as int)).last() == cs@.subrange(start as int, i as int),
            match best {
                Some((a, b)) => a <= b <= n && Some(cs@.subrange(a as int, b as int))
                    == last_nonblank(split_lines(cs@.take(i as int)).drop_last()),
                None => last_nonblank(split_lines(cs@.take(i as int)).drop_last()) is None,
            },
        decreases n - i,
    {
        let ghost prev = split_lines(cs@.take(i as int));
        assert(cs@.take(i + 1).drop_last() =~= cs@.take(i as int));
        if cs[i] == '\n' {
            let blank_line = is_blank_range(&cs, start, i);
            if !blank_line {
                best = Some((start, i));
            }
            proof {
                let next = split_lines(cs@.take(i + 1));
                assert(next == prev.push(Seq::<char>::empty()));
                assert(next.drop_last() =~= prev);
            }
            start = i + 1;
            proof {
                assert(cs@.subrange(start as int, i + 1) =~= Seq::<char>::empty());
            }
        } else {
            proof {
                let next = split_lines(cs@.take(i + 1));
                assert(next == prev.update(prev.len() - 1, prev.last().push(cs@[i as int])));
                assert(next.drop_last() =~= prev.drop_last());
                assert(cs@.subrange(start as int, i + 1) =~= cs@.subrange(start as int, i as int).push(
                    cs@[i as int],
                ));
            }
        }
        i = i + 1;
    }
    proof {
        assert(cs@.take(n as int) =~= s@);
    }
    let last_blank = is_blank_range(&cs, start, n);
    if !last_blank {
        let (a, b) = trim_bounds(&cs, start, n);
        return string_of(&cs, a, b);
    }
    match best {
        Some((a0, b0)) => {
            let (a, b) = trim_bounds(&cs, a0, b0);
            string_of(&cs, a, b)
        },
        None => {
            let fallback = "no output";
            proof {
                reveal_strlit("no output");
            }
            let fb = chars_of(fallback);
            string_of(&fb, 0, fb.len())
        },
    }
}

// ---------------------------------------------------------------------------
// Lexicographic order
// ---------------------------------------------------------------------------

/// Strict lexicographic order on character sequences, by code point. This is
/// the order `str`'s `Ord` gives, since UTF-8 preserves code-point order.
pub open spec fn text_lt(a: Seq<char>, b: Seq<char>) -> bool
    decreases a.len(),
{
    if a.len() == 0 {
        b.len() > 0
    } else if b.len() == 0 {
        false
    } else if a[0] != b[0] {
        (a[0] as int) < (b[0] as int)
    } else {
        text_lt(a.drop_first(), b.drop_first())
    }
}

/// `text_lt` is irreflexive.
pub proof fn lemma_text_lt_irreflexive(a: Seq<char>)
    ensures
        !text_lt(a, a),
    decreases a.len(),
{
    if a.len() > 0 {
        lemma_text_lt_irreflexive(a.drop_first());
    }
}

/// Of two distinct sequences exactly one is `text_lt` the other.
pub proof fn lemma_text_lt_total(a: Seq<char>, b: Seq<char>)
    ensures
        !text_lt(a, a),
        a != b ==> (text_lt(a, b) || text_lt(b, a)),
        !(text_lt(a, b) && text_lt(b, a)),
    decreases a.len(),
{
    lemma_text_lt_irreflexive(a);
    if a.len() > 0 && b.len() > 0 {
        lemma_text_lt_total(a.drop_first(), b.drop_first());
        if a[0] == b[0] && a.drop_first() == b.drop_first() {
            assert(a =~= b) by {
                assert forall|i: int| 0 <= i < a.len() implies a[i] == b[i] by {
                    if i > 0 {
                        assert(a[i] == a.drop_first()[i - 1]);
                        assert(b[i] == b.drop_first()[i - 1]);
                    }
                }
            }
        }
    } else if a.len() == 0 && b.len() == 0 {
        assert(a =~= b);
    }
}

/// `text_lt` is transitive.
pub proof fn lemma_text_lt_transitive(a: Seq<char>, b: Seq<char>, c: Seq<char>)
    requires
        text_lt(a, b),
        text_lt(b, c),
    ensures
        text_lt(a, c),
    decreases a.len(),
{
    if a.len() > 0 && b.len() > 0 && c.len() > 0 {
        if a[0] == b[0] && b[0] == c[0] {
            lemma_text_lt_transitive(a.drop_first(), b.drop_first(), c.drop_first());
        }
    }
}

/// Relative order of two values.
#[derive(Debug, Clone, Copy, PartialEq, Eq, Structural)]
pub enum Precedence {
    Before,
    Same,
    After,
}

/// Compare two character vectors lexicographically.
fn compare_chars(x: &Vec<char>, y: &Vec<char>) -> (r: Precedence)
    ensures
        r == Precedence::Before <==> text_lt(x@, y@),
        r == Precedence::Same <==> x@ == y@,
        r == Precedence::After <==> text_lt(y@, x@),
{
    proof {
        lemma_text_lt_total(x@, y@);
        assert(x@.skip(0) =~= x@);
        assert(y@.skip(0) =~= y@);
    }
    let mut i: usize = 0;
    while i < x.len() && i < y.len()
        invariant
            i <= x.len(),
            i <= y.len(),
            forall|k: int| 0 <= k < i ==> x@[k] == y@[k],
            text_lt(x@, y@) == text_lt(x@.skip(i as int), y@.skip(i as int)),
            text_lt(y@, x@) == text_lt(y@.skip(i as int), x@.skip(i as int)),
        decreases x.len() - i,
    {
        assert(x@.skip(i as int).drop_first() =~= x@.skip(i + 1));
        assert(y@.skip(i as int).drop_first() =~= y@.skip(i + 1));
        if x[i] != y[i] {
            assert(x@.skip(i as int)[0] == x@[i as int]);
            assert(y@.skip(i as int)[0] == y@[i as int]);
            if x[i] < y[i] {
                return Precedence::Before;
            } else {
                return Precedence::After;
            }
        }
        i = i + 1;
    }
    assert(x@.skip(i as int).len() == x.len() - i);
    if x.len() == y.len() {
        assert(x@ =~= y@);
        Precedence::Same
    } else if x.len() < y.len() {
        Precedence::Before
    } else {
        Precedence::After
    }
}

/// Compare two strings lexicographically, as `str`'s `Ord` does.
pub fn compare_text(a: &str, b: &str) -> (r: Precedence)
    ensures
        r == Precedence::Before <==> text_lt(a@, b@),
        r == Precedence::Same <==> a@ == b@,
        r == Precedence::After <==> text_lt(b@, a@),
{
    let x = chars_of(a);
    let y = chars_of(b);
    compare_chars(&x, &y)
}

} // verus!
