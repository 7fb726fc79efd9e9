//! Character-sequence helpers: whitespace and trimming, literal comparison, decimal
//! numbers, splitting, replacing, case mapping and session names.

use vstd::prelude::*;

verus! {

/// `char::is_whitespace`: the Unicode `White_Space` property.
pub open spec fn is_ws(c: char) -> bool {
    let u = c as u32;
    ||| 0x9 <= u <= 0xD
    ||| u == 0x20
    ||| u == 0x85
    ||| u == 0xA0
    ||| u == 0x1680
    ||| 0x2000 <= u <= 0x200A
    ||| u == 0x2028
    ||| u == 0x2029
    ||| u == 0x202F
    ||| u == 0x205F
    ||| u == 0x3000
}

/// `s` with its leading whitespace removed.
pub open spec fn trim_start(s: Seq<char>) -> Seq<char>
    decreases s.len(),
{
    if s.len() > 0 && is_ws(s[0]) {
        trim_start(s.drop_first())
    } else {
        s
    }
}

/// `s` with its trailing whitespace removed.
pub open spec fn trim_end(s: Seq<char>) -> Seq<char>
    decreases s.len(),
{
    if s.len() > 0 && is_ws(s.last()) {
        trim_end(s.drop_last())
    } else {
        s
    }
}

/// `str::trim`.
pub open spec fn trim(s: Seq<char>) -> Seq<char> {
    trim_end(trim_start(s))
}

pub fn is_whitespace(c: char) -> (r: bool)
    ensures
        r == is_ws(c),
{
    let u = c as u32;
    (0x9 <= u && u <= 0xD) || u == 0x20 || u == 0x85 || u == 0xA0 || u == 0x1680 || (0x2000
        <= u && u <= 0x200A) || u == 0x2028 || u == 0x2029 || u == 0x202F || u == 0x205F || u
        == 0x3000
}

proof fn lemma_trim_start_skip(s: Seq<char>, i: int)
    requires
        0 <= i <= s.len(),
        forall|k: int| 0 <= k < i ==> is_ws(#[trigger] s[k]),
    ensures
        trim_start(s) == trim_start(s.skip(i)),
    decreases i,
{
    if i > 0 {
        lemma_trim_start_skip(s.drop_first(), i - 1);
        assert(s.drop_first().skip(i - 1) =~= s.skip(i));
    } else {
        assert(s.skip(0) =~= s);
    }
}

proof fn lemma_trim_end_take(s: Seq<char>, j: int)
    requires
        0 <= j <= s.len(),
        forall|k: int| j <= k < s.len() ==> is_ws(#[trigger] s[k]),
    ensures
        trim_end(s) == trim_end(s.take(j)),
    decreases s.len() - j,
{
    if j < s.len() {
        lemma_trim_end_take(s.drop_last(), j);
        assert(s.drop_last().take(j) =~= s.take(j));
    } else {
        assert(s.take(j) =~= s);
    }
}

/// The elements `s[from..to]` as a new vector.
pub fn sub_vec(s: &[char], from: usize, to: usize) -> (r: Vec<char>)
    requires
        from <= to <= s@.len(),
    ensures
        r@ == s@.subrange(from as int, to as int),
{
    let mut r: Vec<char> = Vec::new();
    let mut i: usize = from;
    while i < to
        invariant
            from <= i <= to <= s@.len(),
            r@ == s@.subrange(from as int, i as int),
        decreases to - i,
    {
        r.push(s[i]);
        i = i + 1;
        assert(r@ =~= s@.subrange(from as int, i as int));
    }
    r
}

/// `str::trim`: drops leading and trailing whitespace.
pub fn trim_chars(s: &[char]) -> (r: Vec<char>)
    ensures
        r@ == trim(s@),
{
    let n = s.len();
    let mut i: usize = 0;
    while i < n && is_whitespace(s[i])
        invariant
            i <= n == s@.len(),
            forall|k: int| 0 <= k < i ==> is_ws(#[trigger] s@[k]),
        decreases n - i,
    {
        i = i + 1;
    }
    proof {
        lemma_trim_start_skip(s@, i as int);
    }
    let ghost t = s@.skip(i as int);
    assert(trim_start(t) == t);
    let mut j: usize = n;
    while j > i && is_whitespace(s[j - 1])
        invariant
            i <= j <= n == s@.len(),
            forall|k: int| j <= k < n ==> is_ws(#[trigger] s@[k]),
        decreases j,
    {
        j = j - 1;
    }
    proof {
        let jj = (j - i) as int;
        assert forall|k: int| jj <= k < t.len() implies is_ws(#[trigger] t[k]) by {
            assert(t[k] == s@[k + i]);
        }
        lemma_trim_end_take(t, jj);
        let u = t.take(jj);
        assert(u =~= s@.subrange(i as int, j as int));
        if u.len() > 0 {
            assert(u.last() == s@[j - 1]);
        }
        assert(trim_end(u) == u);
    }
    sub_vec(s, i, j)
}

/// Whether `a` spells exactly the literal `lit`.
pub fn eq_lit(a: &[char], lit: &str) -> (r: bool)
    ensures
        r == (a@ == lit@),
{
    let n = lit.unicode_len();
    if a.len() != n {
        return false;
    }
    let mut i: usize = 0;
    while i < n
        invariant
            i <= n == a@.len() == lit@.len(),
            forall|k: int| 0 <= k < i ==> a@[k] == lit@[k],
        decreases n - i,
    {
        if a[i] != lit.get_char(i) {
            return false;
        }
        i = i + 1;
    }
    assert(a@ =~= lit@);
    true
}

/// Whether `p` begins with `pre`.
pub open spec fn has_prefix(p: Seq<char>, pre: Seq<char>) -> bool {
    pre.len() <= p.len() && p.take(pre.len() as int) == pre
}

/// Whether `a` begins with the literal `lit`.
pub fn starts_with_lit(a: &[char], lit: &str) -> (r: bool)
    ensures
        r == (lit@.len() <= a@.len() && a@.take(lit@.len() as int) == lit@),
        r == has_prefix(a@, lit@),
{
    let n = lit.unicode_len();
    if a.len() < n {
        return false;
    }
    let mut i: usize = 0;
    while i < n
        invariant
            i <= n == lit@.len() <= a@.len(),
            forall|k: int| 0 <= k < i ==> a@[k] == lit@[k],
        decreases n - i,
    {
        if a[i] != lit.get_char(i) {
            assert(a@.take(n as int)[i as int] != lit@[i as int]);
            return false;
        }
        i = i + 1;
    }
    assert(a@.take(n as int) =~= lit@);
    true
}

/// Appends all of `s` to `v`.
pub fn push_all(v: &mut Vec<char>, s: &[char])
    ensures
        final(v)@ == old(v)@ + s@,
{
    let mut i: usize = 0;
    while i < s.len()
        invariant
            i <= s@.len(),
            v@ == old(v)@ + s@.take(i as int),
        decreases s.len() - i,
    {
        v.push(s[i]);
        i = i + 1;
        assert(v@ =~= old(v)@ + s@.take(i as int));
    }
    assert(s@.take(s@.len() as int) =~= s@);
}

/// Appends the literal `lit` to `v`.
pub fn push_lit(v: &mut Vec<char>, lit: &str)
    ensures
        final(v)@ == old(v)@ + lit@,
{
    let n = lit.unicode_len();
    let mut i: usize = 0;
    while i < n
        invariant
            i <= n == lit@.len(),
            v@ == old(v)@ + lit@.take(i as int),
        decreases n - i,
    {
        v.push(lit.get_char(i));
        i = i + 1;
        assert(v@ =~= old(v)@ + lit@.take(i as int));
    }
    assert(lit@.take(n as int) =~= lit@);
}

/// The characters of the literal `lit`.
pub fn lit_chars(lit: &str) -> (r: Vec<char>)
    ensures
        r@ == lit@,
{
    let mut r: Vec<char> = Vec::new();
    push_lit(&mut r, lit);
    assert(r@ =~= lit@);
    r
}

/// `n` copies of `c` (`str::repeat` on a one-character string).
pub open spec fn repeat_char(c: char, n: nat) -> Seq<char> {
    Seq::new(n, |i: int| c)
}

pub fn repeat_chars(c: char, n: usize) -> (r: Vec<char>)
    ensures
        r@ == repeat_char(c, n as nat),
{
    let mut r: Vec<char> = Vec::new();
    let mut i: usize = 0;
    while i < n
        invariant
            i <= n,
            r@ == repeat_char(c, i as nat),
        decreases n - i,
    {
        r.push(c);
        i = i + 1;
        assert(r@ =~= repeat_char(c, i as nat));
    }
    r
}

// ---------- decimal numbers ----------

pub open spec fn is_digit(c: char) -> bool {
    '0' <= c <= '9'
}

pub open spec fn digit_val(c: char) -> nat {
    (c as u32 - '0' as u32) as nat
}

/// The value of a string of decimal digits.
pub open spec fn digits_value(s: Seq<char>) -> nat
    decreases s.len(),
{
    if s.len() == 0 {
        0
    } else {
        digits_value(s.drop_last()) * 10 + digit_val(s.last())
    }
}

pub open spec fn all_digits(s: Seq<char>) -> bool {
    forall|i: int| 0 <= i < s.len() ==> is_digit(#[trigger] s[i])
}

/// The digits of an unsigned number: the text after an optional leading `+`.
pub open spec fn unsigned_body(s: Seq<char>) -> Seq<char> {
    if s.len() > 0 && s[0] == '+' {
        s.drop_first()
    } else {
        s
    }
}

/// `str::parse` for an unsigned integer type whose largest value is `max`:
/// an optional `+`, then one or more decimal digits, with a value of at most `max`.
pub open spec fn parse_unsigned(s: Seq<char>, max: nat) -> Option<nat> {
    let d = unsigned_body(s);
    if d.len() > 0 && all_digits(d) && digits_value(d) <= max {
        Some(digits_value(d))
    } else {
        None
    }
}

proof fn lemma_digits_value_prefix(s: Seq<char>, k: int)
    requires
        0 <= k <= s.len(),
    ensures
        digits_value(s.take(k)) <= digits_value(s),
    decreases s.len(),
{
    if k < s.len() {
        lemma_digits_value_prefix(s.drop_last(), k);
        assert(s.drop_last().take(k) =~= s.take(k));
    } else {
        assert(s.take(k) =~= s);
    }
}

/// Parses `s` as an unsigned number no larger than `max` (see [`parse_unsigned`]).
pub fn parse_unsigned_chars(s: &[char], max: u64) -> (r: Option<u64>)
    ensures
        match parse_unsigned(s@, max as nat) {
            Some(v) => r == Some(v as u64),
            None => r is None,
        },
{
    let n = s.len();
    let start: usize = if n > 0 && s[0] == '+' { 1 } else { 0 };
    let ghost d = unsigned_body(s@);
    assert(d =~= s@.skip(start as int));
    if start == n {
        return None;
    }
    let mut v: u64 = 0;
    let mut i: usize = start;
    while i < n
        invariant
            start <= i <= n == s@.len(),
            d == s@.skip(start as int),
            d == unsigned_body(s@),
            all_digits(d.take(i - start)),
            v as nat == digits_value(d.take(i - start)),
            v <= max,
        decreases n - i,
    {
        let c = s[i];
        if !('0' <= c && c <= '9') {
            assert(d[i - start] == c);
            return None;
        }
        let dv = (c as u32 - '0' as u32) as u64;
        let ghost k = (i - start) as int;
        assert(d.take(k + 1).drop_last() =~= d.take(k));
        assert(d.take(k + 1).last() == c);
        if dv > max || v > (max - dv) / 10 {
            proof {
                assert(v * 10 + dv > max) by (nonlinear_arith)
                    requires
                        dv > max || v > (max - dv) / 10,
                        dv <= 9,
                ;
                lemma_digits_value_prefix(d, k + 1);
            }
            return None;
        }
        assert(v * 10 + dv <= max) by (nonlinear_arith)
            requires
                dv <= max,
                v <= (max - dv) / 10,
        ;
        v = v * 10 + dv;
        i = i + 1;
        assert forall|j: int| 0 <= j < k + 1 implies is_digit(#[trigger] d.take(k + 1)[j]) by {
            if j < k {
                assert(d.take(k + 1)[j] == d.take(k)[j]);
            }
        }
    }
    assert(d.take(n - start) =~= d);
    Some(v)
}

pub open spec fn digit_char(d: nat) -> char {
    (d + 48) as char
}

/// Decimal notation of `n`, without leading zeros.
pub open spec fn decimal(n: nat) -> Seq<char>
    decreases n,
{
    if n < 10 {
        seq![digit_char(n)]
    } else {
        decimal(n / 10).push(digit_char(n % 10))
    }
}

fn digit_to_char(d: u64) -> (c: char)
    requires
        d < 10,
    ensures
        c == digit_char(d as nat),
{
    ((d as u8) + 48u8) as char
}

/// Decimal notation of `n` (`u64::to_string`).
pub fn decimal_chars(n: u64) -> (r: Vec<char>)
    ensures
        r@ == decimal(n as nat),
    decreases n,
{
    if n < 10 {
        let mut r: Vec<char> = Vec::new();
        r.push(digit_to_char(n));
        assert(r@ =~= decimal(n as nat));
        r
    } else {
        let mut r = decimal_chars(n / 10);
        r.push(digit_to_char(n % 10));
        r
    }
}

// ---------- splitting ----------

/// Which characters separate the pieces of a split.
#[derive(Clone, Copy, PartialEq, Eq, Structural, Debug)]
pub enum Sep {
    /// One given character (`str::split(c)`).
    Char(char),
    /// Any whitespace character.
    Whitespace,
    /// Whitespace, `,` or `+` (the separators of a channel list).
    ChannelToken,
}

impl Sep {
    pub open spec fn separates(self, c: char) -> bool {
        match self {
            Sep::Char(x) => c == x,
            Sep::Whitespace => is_ws(c),
            Sep::ChannelToken => is_ws(c) || c == ',' || c == '+',
        }
    }

    pub fn is_separator(&self, c: char) -> (r: bool)
        ensures
            r == self.separates(c),
    {
        match self {
            Sep::Char(x) => c == *x,
            Sep::Whitespace => is_whitespace(c),
            Sep::ChannelToken => is_whitespace(c) || c == ',' || c == '+',
        }
    }
}

/// `str::split` with the separators `sep`: the pieces between separators, empty ones
/// included, so `n` separators give `n + 1` pieces.
pub open spec fn split_on(s: Seq<char>, sep: Sep) -> Seq<Seq<char>>
    decreases s.len(),
{
    if s.len() == 0 {
        seq![Seq::empty()]
    } else {
        let r = split_on(s.drop_last(), sep);
        if sep.separates(s.last()) {
            r.push(Seq::empty())
        } else {
            r.update(r.len() - 1, r.last().push(s.last()))
        }
    }
}

pub proof fn lemma_split_on_nonempty(s: Seq<char>, sep: Sep)
    ensures
        split_on(s, sep).len() >= 1,
    decreases s.len(),
{
    if s.len() > 0 {
        lemma_split_on_nonempty(s.drop_last(), sep);
    }
}

/// Splits `s` at every separator of `sep` (see [`split_on`]).
pub fn split_chars(s: &[char], sep: Sep) -> (r: Vec<Vec<char>>)
    ensures
        r.deep_view() == split_on(s@, sep),
{
    let mut pieces: Vec<Vec<char>> = Vec::new();
    let mut cur: Vec<char> = Vec::new();
    let mut i: usize = 0;
    assert(s@.take(0) =~= Seq::<char>::empty());
    assert(pieces.deep_view().push(cur@) =~= split_on(s@.take(0), sep));
    while i < s.len()
        invariant
            i <= s@.len(),
            pieces.deep_view().push(cur@) == split_on(s@.take(i as int), sep),
        decreases s.len() - i,
    {
        let c = s[i];
        let ghost before = pieces.deep_view().push(cur@);
        proof {
            assert(s@.take(i + 1).drop_last() =~= s@.take(i as int));
            assert(s@.take(i + 1).last() == c);
            lemma_split_on_nonempty(s@.take(i as int), sep);
        }
        if sep.is_separator(c) {
            let ghost old_pieces = pieces.deep_view();
            let done = cur;
            let ghost dv = done@;
            assert(done.deep_view() =~= dv);
            pieces.push(done);
            cur = Vec::new();
            assert(pieces.deep_view() =~= old_pieces.push(dv));
            assert(pieces.deep_view().push(cur@) =~= before.push(Seq::empty()));
        } else {
            let ghost old_pieces = pieces.deep_view();
            cur.push(c);
            assert(pieces.deep_view() =~= old_pieces);
            assert(pieces.deep_view().push(cur@) =~= before.update(
                before.len() - 1,
                before.last().push(c),
            ));
        }
        i = i + 1;
    }
    let ghost old_pieces = pieces.deep_view();
    let last = cur;
    let ghost lv = last@;
    assert(last.deep_view() =~= lv);
    pieces.push(last);
    assert(pieces.deep_view() =~= old_pieces.push(lv));
    assert(s@.take(s@.len() as int) =~= s@);
    pieces
}

/// Splitting at a separator that joins two texts splits each text on its own.
pub proof fn lemma_split_concat(x: Seq<char>, y: Seq<char>, sep: Sep, c: char)
    requires
        sep.separates(c),
    ensures
        split_on(x + seq![c] + y, sep) == split_on(x, sep) + split_on(y, sep),
    decreases y.len(),
{
    lemma_split_on_nonempty(x, sep);
    if y.len() == 0 {
        assert((x + seq![c] + y).drop_last() =~= x);
        assert(split_on(x, sep) + split_on(y, sep) =~= split_on(x, sep).push(Seq::empty()));
    } else {
        let y0 = y.drop_last();
        lemma_split_concat(x, y0, sep, c);
        lemma_split_on_nonempty(y0, sep);
        assert((x + seq![c] + y).drop_last() =~= x + seq![c] + y0);
        assert((x + seq![c] + y).last() == y.last());
        let a = split_on(x, sep);
        let b = split_on(y0, sep);
        if sep.separates(y.last()) {
            assert((a + b).push(Seq::empty()) =~= a + b.push(Seq::empty()));
        } else {
            assert((a + b).update((a + b).len() - 1, (a + b).last().push(y.last())) =~= a + b.update(
                b.len() - 1,
                b.last().push(y.last()),
            ));
        }
    }
}

/// A text without separators is a single piece.
pub proof fn lemma_split_none(x: Seq<char>, sep: Sep)
    requires
        forall|i: int| 0 <= i < x.len() ==> !sep.separates(#[trigger] x[i]),
    ensures
        split_on(x, sep) == seq![x],
    decreases x.len(),
{
    if x.len() == 0 {
        assert(x =~= Seq::<char>::empty());
        assert(split_on(x, sep) =~= seq![x]);
    } else {
        let x0 = x.drop_last();
        assert forall|i: int| 0 <= i < x0.len() implies !sep.separates(#[trigger] x0[i]) by {
            assert(x0[i] == x[i]);
        }
        lemma_split_none(x0, sep);
        assert(!sep.separates(x[x.len() - 1]));
        assert(x0.push(x.last()) =~= x);
        assert(split_on(x, sep) == split_on(x0, sep).update(0, x0.push(x.last())));
        assert(split_on(x, sep) =~= seq![x]);
    }
}

pub proof fn lemma_digit_char(d: nat)
    requires
        d < 10,
    ensures
        is_digit(digit_char(d)),
        digit_val(digit_char(d)) == d,
{
    assert(digit_char(d) as u32 == d + 48) by {
        vstd::utf8::char_u32_cast(digit_char(d), (d + 48) as u32);
    }
}

/// The decimal notation of a number is a non-empty run of digits worth that number.
pub proof fn lemma_decimal(n: nat)
    ensures
        decimal(n).len() > 0,
        all_digits(decimal(n)),
        digits_value(decimal(n)) == n,
    decreases n,
{
    if n < 10 {
        lemma_digit_char(n);
        assert(decimal(n).drop_last() =~= Seq::<char>::empty());
        assert(decimal(n).last() == digit_char(n));
        assert(digits_value(Seq::<char>::empty()) == 0);
    } else {
        lemma_decimal(n / 10);
        lemma_digit_char(n % 10);
        let d = decimal(n);
        assert(d.drop_last() =~= decimal(n / 10));
        assert(d.last() == digit_char(n % 10));
        assert(n == (n / 10) * 10 + n % 10) by (nonlinear_arith);
        assert forall|i: int| 0 <= i < d.len() implies is_digit(#[trigger] d[i]) by {
            if i < d.len() - 1 {
                assert(d[i] == decimal(n / 10)[i]);
            }
        }
    }
}

/// A run of digits reads back as its value, and trimming leaves it unchanged.
pub proof fn lemma_parse_decimal(n: nat, max: nat)
    requires
        n <= max,
    ensures
        trim(decimal(n)) == decimal(n),
        parse_unsigned(decimal(n), max) == Some(n),
{
    lemma_decimal(n);
    let d = decimal(n);
    assert(is_digit(d[0]));
    assert(is_digit(d.last()));
    assert(trim_start(d) == d);
    assert(trim_end(d) == d);
    assert(unsigned_body(d) == d);
}

/// The non-empty pieces, in order (`str::split_whitespace` over whitespace pieces).
pub open spec fn nonempty_pieces(ps: Seq<Seq<char>>) -> Seq<Seq<char>>
    decreases ps.len(),
{
    if ps.len() == 0 {
        Seq::empty()
    } else if ps.last().len() == 0 {
        nonempty_pieces(ps.drop_last())
    } else {
        nonempty_pieces(ps.drop_last()).push(ps.last())
    }
}

/// `str::split_whitespace`: the words of `s`.
pub open spec fn words(s: Seq<char>) -> Seq<Seq<char>> {
    nonempty_pieces(split_on(s, Sep::Whitespace))
}

/// The words of `s` (see [`words`]).
pub fn split_words(s: &[char]) -> (r: Vec<Vec<char>>)
    ensures
        r.deep_view() == words(s@),
        forall|i: int| 0 <= i < r@.len() ==> (#[trigger] r@[i])@.len() > 0,
{
    let pieces = split_chars(s, Sep::Whitespace);
    let ghost pv = pieces.deep_view();
    let mut out: Vec<Vec<char>> = Vec::new();
    let mut i: usize = 0;
    assert(pv.take(0) =~= Seq::<Seq<char>>::empty());
    while i < pieces.len()
        invariant
            i <= pieces@.len(),
            pv == pieces.deep_view(),
            out.deep_view() == nonempty_pieces(pv.take(i as int)),
            forall|k: int| 0 <= k < out@.len() ==> (#[trigger] out@[k])@.len() > 0,
        decreases pieces.len() - i,
    {
        assert(pv.take(i + 1).drop_last() =~= pv.take(i as int));
        assert(pv.take(i + 1).last() == pieces@[i as int]@);
        if pieces[i].len() > 0 {
            let w = sub_vec(pieces[i].as_slice(), 0, pieces[i].len());
            assert(w@ =~= pieces@[i as int]@);
            let ghost before = out.deep_view();
            let ghost wv = w@;
            assert(w.deep_view() =~= wv);
            out.push(w);
            assert(out.deep_view() =~= before.push(wv));
        }
        i = i + 1;
    }
    assert(pv.take(i as int) =~= pv);
    out
}

/// `str::replace(pat, rep)`: every non-overlapping occurrence of `pat`, scanning from
/// the left, replaced by `rep`.
pub open spec fn replace_all(s: Seq<char>, pat: Seq<char>, rep: Seq<char>) -> Seq<char>
    decreases s.len(),
{
    if s.len() == 0 {
        Seq::empty()
    } else if pat.len() > 0 && has_prefix(s, pat) {
        rep + replace_all(s.skip(pat.len() as int), pat, rep)
    } else {
        seq![s[0]] + replace_all(s.drop_first(), pat, rep)
    }
}

/// Replaces every `pat` in `s` by `rep` (see [`replace_all`]).
pub fn replace_chars(s: &[char], pat: &str, rep: &[char]) -> (r: Vec<char>)
    ensures
        r@ == replace_all(s@, pat@, rep@),
{
    let n = s.len();
    let mut out: Vec<char> = Vec::new();
    let mut i: usize = 0;
    let plen = pat.unicode_len();
    assert(s@.skip(0) =~= s@);
    assert(out@ + replace_all(s@, pat@, rep@) =~= replace_all(s@, pat@, rep@));
    while i < n
        invariant
            i <= n == s@.len(),
            plen == pat@.len(),
            out@ + replace_all(s@.skip(i as int), pat@, rep@) == replace_all(s@, pat@, rep@),
        decreases n - i,
    {
        let ghost rest = s@.skip(i as int);
        let ghost before = out@;
        let tail = sub_vec(s, i, n);
        assert(tail@ =~= rest);
        if plen > 0 && starts_with_lit(tail.as_slice(), pat) {
            push_all(&mut out, rep);
            assert(rest.skip(plen as int) =~= s@.skip(i + plen));
            i = i + plen;
            assert(out@ + replace_all(s@.skip(i as int), pat@, rep@) =~= before + replace_all(
                rest,
                pat@,
                rep@,
            ));
        } else {
            out.push(s[i]);
            assert(rest[0] == s@[i as int]);
            assert(rest.drop_first() =~= s@.skip(i + 1));
            i = i + 1;
            assert(out@ + replace_all(s@.skip(i as int), pat@, rep@) =~= before + replace_all(
                rest,
                pat@,
                rep@,
            ));
        }
    }
    assert(s@.skip(i as int) =~= Seq::<char>::empty());
    assert(out@ =~= out@ + replace_all(s@.skip(i as int), pat@, rep@));
    out
}

// ---------- case mapping ----------

/// Whether `c` is an ASCII character.
pub open spec fn is_ascii_char(c: char) -> bool {
    (c as u32) < 128
}

/// Whether every character of `s` is ASCII.
pub open spec fn all_ascii(s: Seq<char>) -> bool {
    forall|k: int| 0 <= k < s.len() ==> is_ascii_char(#[trigger] s[k])
}

/// Whether `c` is an ASCII capital letter.
pub open spec fn is_ascii_upper(c: char) -> bool {
    'A' <= c <= 'Z'
}

/// `c` with an ASCII capital letter turned into its small letter.
pub open spec fn ascii_lower_char(c: char) -> char {
    if is_ascii_upper(c) {
        ((c as u32) + 32) as char
    } else {
        c
    }
}

/// `s` with every ASCII capital letter turned into its small letter.
pub open spec fn ascii_lower(s: Seq<char>) -> Seq<char> {
    s.map_values(|c: char| ascii_lower_char(c))
}

/// What `str::to_lowercase` gives the string `s`.
pub uninterp spec fn lowercase(s: Seq<char>) -> Seq<char>;

/// Calls `str::to_lowercase` (std) on the string spelled by `s`. The result is
/// `lowercase(s@)`, a function of the text alone; on ASCII text it maps `A`..`Z` to
/// `a`..`z` and keeps every other character, as std documents. What the Unicode case
/// tables do to other characters is not stated.
#[verifier::external_body]
pub(crate) fn to_lowercase_chars(s: &[char]) -> (r: Vec<char>)
    ensures
        r@ == lowercase(s@),
        all_ascii(s@) ==> r@ == ascii_lower(s@),
{
    let t: String = s.iter().collect();
    t.to_lowercase().chars().collect()
}

/// A text without capital ASCII letters is its own ASCII lowercase.
pub proof fn lemma_ascii_lower_fixed(s: Seq<char>)
    requires
        forall|k: int| 0 <= k < s.len() ==> !is_ascii_upper(#[trigger] s[k]),
    ensures
        ascii_lower(s) == s,
{
    assert(ascii_lower(s) =~= s);
}

/// Trimming keeps a text ASCII.
pub proof fn lemma_trim_ascii(s: Seq<char>)
    requires
        all_ascii(s),
    ensures
        all_ascii(trim_start(s)),
        all_ascii(trim_end(s)),
        all_ascii(trim(s)),
    decreases s.len(),
{
    if s.len() > 0 {
        lemma_trim_ascii(s.drop_first());
        lemma_trim_ascii(s.drop_last());
    }
    if trim_start(s).len() > 0 {
        lemma_trim_end_ascii(trim_start(s));
    }
}

proof fn lemma_trim_end_ascii(s: Seq<char>)
    requires
        all_ascii(s),
    ensures
        all_ascii(trim_end(s)),
    decreases s.len(),
{
    if s.len() > 0 {
        lemma_trim_end_ascii(s.drop_last());
    }
}

/// The pieces of an ASCII text are ASCII.
pub proof fn lemma_split_ascii(s: Seq<char>, sep: Sep)
    requires
        all_ascii(s),
    ensures
        forall|k: int| 0 <= k < split_on(s, sep).len() ==> all_ascii(#[trigger] split_on(s, sep)[k]),
    decreases s.len(),
{
    if s.len() > 0 {
        lemma_split_ascii(s.drop_last(), sep);
        lemma_split_on_nonempty(s.drop_last(), sep);
        let r = split_on(s.drop_last(), sep);
        assert(is_ascii_char(s[s.len() - 1]));
        assert forall|k: int| 0 <= k < split_on(s, sep).len() implies all_ascii(
            #[trigger] split_on(s, sep)[k],
        ) by {
            if k < r.len() - 1 || sep.separates(s.last()) {
                if k < r.len() {
                    assert(all_ascii(r[k]));
                }
            } else {
                assert(all_ascii(r[k]));
                let p = r.last().push(s.last());
                assert forall|j: int| 0 <= j < p.len() implies is_ascii_char(#[trigger] p[j]) by {
                    if j < r.last().len() {
                        assert(p[j] == r.last()[j]);
                    }
                }
            }
        }
    }
}

/// Whether `a` ends with the literal `lit`.
pub fn ends_with_lit(a: &[char], lit: &str) -> (r: bool)
    ensures
        r == (lit@.len() <= a@.len() && a@.skip(a@.len() - lit@.len()) == lit@),
{
    let n = lit.unicode_len();
    if a.len() < n {
        return false;
    }
    let off = a.len() - n;
    let mut i: usize = 0;
    while i < n
        invariant
            i <= n == lit@.len() <= a@.len(),
            off + n == a.len(),
            a.len() == a@.len(),
            forall|k: int| 0 <= k < i ==> a@[off + k] == lit@[k],
        decreases n - i,
    {
        if a[off + i] != lit.get_char(i) {
            assert(a@.skip(off as int)[i as int] != lit@[i as int]);
            return false;
        }
        i = i + 1;
    }
    assert(a@.skip(off as int) =~= lit@);
    true
}

// ---------- session names ----------

/// Whether `c` is an ASCII letter or digit.
pub open spec fn is_ascii_alnum(c: char) -> bool {
    ||| '0' <= c <= '9'
    ||| 'a' <= c <= 'z'
    ||| 'A' <= c <= 'Z'
}

/// What `char::is_alphanumeric` says of `c`.
pub uninterp spec fn alphanumeric(c: char) -> bool;

/// Calls `char::is_alphanumeric` (std). The result is `alphanumeric(c)`, a function of
/// the character alone; for an ASCII character it holds exactly for `0`..`9`, `a`..`z`
/// and `A`..`Z`, as std documents. The Unicode tables behind other characters are not
/// stated.
#[verifier::external_body]
pub(crate) fn is_alphanumeric(c: char) -> (r: bool)
    ensures
        r == alphanumeric(c),
        is_ascii_char(c) ==> (r <==> is_ascii_alnum(c)),
{
    c.is_alphanumeric()
}

/// The first position at or after `from` that holds no whitespace.
fn skip_whitespace(s: &[char], from: usize) -> (r: usize)
    requires
        from <= s@.len(),
    ensures
        from <= r <= s@.len(),
        trim_start(s@.skip(from as int)) == s@.skip(r as int),
{
    let mut i: usize = from;
    while i < s.len() && is_whitespace(s[i])
        invariant
            from <= i <= s@.len(),
            forall|k: int| from <= k < i ==> is_ws(#[trigger] s@[k]),
        decreases s.len() - i,
    {
        i = i + 1;
    }
    proof {
        let t = s@.skip(from as int);
        assert forall|k: int| 0 <= k < i - from implies is_ws(#[trigger] t[k]) by {
            assert(t[k] == s@[k + from]);
        }
        lemma_trim_start_skip(t, i - from);
        assert(t.skip(i - from) =~= s@.skip(i as int));
    }
    i
}

/// A session name as shown: leading whitespace dropped, then a leading mark that is
/// neither a letter nor a digit, then the whitespace after it.
pub open spec fn norm_session(s: Seq<char>) -> Seq<char> {
    let t = trim_start(s);
    if t.len() > 0 && !alphanumeric(t[0]) {
        trim_start(t.drop_first())
    } else {
        t
    }
}

/// `norm_session` of a name whose first shown character is ASCII: there a leading mark
/// is any character but an ASCII letter or digit.
pub open spec fn norm_session_ascii(s: Seq<char>) -> Seq<char> {
    let t = trim_start(s);
    if t.len() > 0 && !is_ascii_alnum(t[0]) {
        trim_start(t.drop_first())
    } else {
        t
    }
}

/// Normalises a session name (see [`norm_session`]).
pub fn norm_session_name(s: &[char]) -> (r: Vec<char>)
    ensures
        r@ == norm_session(s@),
        all_ascii(s@) ==> r@ == norm_session_ascii(s@),
{
    proof {
        if all_ascii(s@) {
            lemma_trim_ascii(s@);
        }
    }
    let i = skip_whitespace(s, 0);
    assert(s@.skip(0) =~= s@);
    if i < s.len() && !is_alphanumeric(s[i]) {
        let j = skip_whitespace(s, i + 1);
        assert(s@.skip(i as int).drop_first() =~= s@.skip(i + 1));
        let r = sub_vec(s, j, s.len());
        assert(r@ =~= s@.skip(j as int));
        r
    } else {
        let r = sub_vec(s, i, s.len());
        assert(r@ =~= s@.skip(i as int));
        r
    }
}

} // verus!
