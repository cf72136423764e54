//! Character-level text utilities with exact specifications over `Seq<char>`.

use vstd::prelude::*;

verus! {

/// Appends one character to a string (`String::push`).
#[verifier::external_body]
pub(crate) fn push_char(s: &mut String, c: char)
    ensures
        final(s)@ == old(s)@.push(c),
{
    s.push(c);
}

/// The characters of a string, in order.
pub fn chars_of(s: &str) -> (v: Vec<char>)
    ensures
        v@ == s@,
{
    let mut v: Vec<char> = Vec::new();
    for c in it: s.chars()
        invariant
            v@ == it.seq().take(it.index() as int),
            it.seq() == s@,
    {
        v.push(c);
    }
    v
}

/// A string made of the given characters.
pub fn string_of(v: &[char]) -> (s: String)
    ensures
        s@ == v@,
{
    let mut s = String::new();
    let mut i: usize = 0;
    while i < v.len()
        invariant
            i <= v.len(),
            s@ == v@.take(i as int),
        decreases v.len() - i,
    {
        push_char(&mut s, v[i]);
        assert(v@.take(i as int + 1) =~= v@.take(i as int).push(v@[i as int]));
        i += 1;
    }
    assert(v@.take(v.len() as int) =~= v@);
    s
}


/// `char::is_whitespace`: the Unicode `White_Space` property.
pub open spec fn is_ws(c: char) -> bool {
    let u = c as u32;
    ||| 0x9 <= u <= 0xD
    ||| u == 0x20
    ||| u == 0x85
    ||| u == 0xA0
    ||| u == 0x1680
    ||| 0x2000 <= u <= 0x200A
    ||| u == 0x2028
    ||| u == 0x2029
    ||| u == 0x202F
    ||| u == 0x205F
    ||| u == 0x3000
}

/// Executable `is_ws`.
pub fn is_whitespace(c: char) -> (b: bool)
    ensures
        b == is_ws(c),
{
    let u = c as u32;
    (0x9 <= u && u <= 0xD) || u == 0x20 || u == 0x85 || u == 0xA0 || u == 0x1680 || (0x2000 <= u
        && u <= 0x200A) || u == 0x2028 || u == 0x2029 || u == 0x202F || u == 0x205F || u == 0x3000
}

/// `str::trim_end`: drops trailing whitespace.
pub open spec fn trim_end_spec(s: Seq<char>) -> Seq<char>
    decreases s.len(),
{
    if s.len() > 0 && is_ws(s.last()) {
        trim_end_spec(s.drop_last())
    } else {
        s
    }
}

/// `str::trim_start`: drops leading whitespace.
pub open spec fn trim_start_spec(s: Seq<char>) -> Seq<char>
    decreases s.len(),
{
    if s.len() > 0 && is_ws(s[0]) {
        trim_start_spec(s.drop_first())
    } else {
        s
    }
}

/// `str::trim`: drops leading and trailing whitespace.
pub open spec fn trim_spec(s: Seq<char>) -> Seq<char> {
    trim_start_spec(trim_end_spec(s))
}

/// The number of characters that remain after trailing whitespace is dropped.
fn trim_end_len(v: &[char]) -> (n: usize)
    ensures
        n <= v@.len(),
        trim_end_spec(v@) == v@.take(n as int),
{
    let mut n = v.len();
    assert(v@.take(n as int) =~= v@);
    while n > 0 && is_whitespace(v[n - 1])
        invariant
            n <= v@.len(),
            trim_end_spec(v@) == trim_end_spec(v@.take(n as int)),
        decreases n,
    {
        assert(v@.take(n as int).drop_last() =~= v@.take(n - 1));
        n -= 1;
    }
    n
}

/// The number of leading whitespace characters.
fn trim_start_len(v: &[char]) -> (n: usize)
    ensures
        n <= v@.len(),
        trim_start_spec(v@) == v@.skip(n as int),
{
    let mut n: usize = 0;
    assert(v@.skip(0) =~= v@);
    while n < v.len() && is_whitespace(v[n])
        invariant
            n <= v@.len(),
            trim_start_spec(v@) == trim_start_spec(v@.skip(n as int)),
        decreases v.len() - n,
    {
        assert(v@.skip(n as int).drop_first() =~= v@.skip(n + 1));
        n += 1;
    }
    n
}

/// `s.trim_end()`, as an owned string.
pub fn trim_end(s: &str) -> (r: String)
    ensures
        r@ == trim_end_spec(s@),
{
    let v = chars_of(s);
    let n = trim_end_len(v.as_slice());
    string_of(slice_prefix(v.as_slice(), n).as_slice())
}

/// `s.trim()`, as an owned string.
pub fn trim(s: &str) -> (r: String)
    ensures
        r@ == trim_spec(s@),
{
    let v = chars_of(s);
    let n = trim_end_len(v.as_slice());
    let w = slice_prefix(v.as_slice(), n);
    let m = trim_start_len(w.as_slice());
    string_of(slice_range(w.as_slice(), m, w.len()).as_slice())
}

/// The first `n` elements of a slice, copied.
pub fn slice_prefix<T: Copy>(v: &[T], n: usize) -> (r: Vec<T>)
    requires
        n <= v@.len(),
    ensures
        r@ == v@.take(n as int),
{
    slice_range(v, 0, n)
}

/// The elements `lo..hi` of a slice, copied.
pub fn slice_range<T: Copy>(v: &[T], lo: usize, hi: usize) -> (r: Vec<T>)
    requires
        lo <= hi <= v@.len(),
    ensures
        r@ == v@.subrange(lo as int, hi as int),
{
    let mut r: Vec<T> = Vec::new();
    let mut i = lo;
    while i < hi
        invariant
            lo <= i <= hi <= v@.len(),
            r@ == v@.subrange(lo as int, i as int),
        decreases hi - i,
    {
        r.push(v[i]);
        assert(v@.subrange(lo as int, i + 1) =~= v@.subrange(lo as int, i as int).push(v@[i as int]));
        i += 1;
    }
    r
}


/// `str::split` with a separator predicate: the pieces between separators, in
/// order, always at least one (possibly empty).
pub open spec fn split_where(s: Seq<char>, sep: spec_fn(char) -> bool) -> Seq<Seq<char>>
    decreases s.len(),
{
    if s.len() == 0 {
        seq![Seq::empty()]
    } else {
        let p = split_where(s.drop_last(), sep);
        if sep(s.last()) {
            p.push(Seq::empty())
        } else {
            p.update(p.len() - 1, p.last().push(s.last()))
        }
    }
}

/// The separator predicate that matches one character.
pub open spec fn is_char(c: char) -> spec_fn(char) -> bool {
    |x: char| x == c
}

/// The separator predicate of `split_whitespace`.
pub open spec fn ws_pred() -> spec_fn(char) -> bool {
    |x: char| is_ws(x)
}

/// A splitting never yields zero pieces.
pub proof fn lemma_split_nonempty(s: Seq<char>, sep: spec_fn(char) -> bool)
    ensures
        split_where(s, sep).len() >= 1,
    decreases s.len(),
{
    if s.len() > 0 {
        lemma_split_nonempty(s.drop_last(), sep);
    }
}

/// Characters that are no separator extend the last piece.
pub proof fn lemma_split_extend(p: Seq<char>, b: Seq<char>, sep: spec_fn(char) -> bool)
    requires
        forall|i: int| 0 <= i < b.len() ==> !sep(#[trigger] b[i]),
    ensures
        split_where(p + b, sep) == split_where(p, sep).update(
            split_where(p, sep).len() - 1,
            split_where(p, sep).last() + b,
        ),
    decreases b.len(),
{
    lemma_split_nonempty(p, sep);
    let q = split_where(p, sep);
    if b.len() == 0 {
        assert(p + b =~= p);
        assert(q.last() + b =~= q.last());
        assert(q.update(q.len() - 1, q.last()) =~= q);
    } else {
        let b0 = b.drop_last();
        assert forall|i: int| 0 <= i < b0.len() implies !sep(#[trigger] b0[i]) by {
            assert(b0[i] == b[i]);
        }
        lemma_split_extend(p, b0, sep);
        assert((p + b).drop_last() =~= p + b0);
        assert((p + b).last() == b.last());
        assert(!sep(b.last()));
        let q0 = q.update(q.len() - 1, q.last() + b0);
        assert(q0.last() == q.last() + b0);
        assert((q.last() + b0).push(b.last()) =~= q.last() + b);
        assert(q0.update(q0.len() - 1, q0.last().push(b.last())) =~= q.update(
            q.len() - 1,
            q.last() + b,
        ));
    }
}

/// No piece of a splitting holds a separator.
pub proof fn lemma_split_pieces_clean(s: Seq<char>, sep: spec_fn(char) -> bool)
    ensures
        forall|k: int, i: int|
            0 <= k < split_where(s, sep).len() && 0 <= i < split_where(s, sep)[k].len() ==> !sep(
                #[trigger] split_where(s, sep)[k][i],
            ),
    decreases s.len(),
{
    if s.len() > 0 {
        lemma_split_pieces_clean(s.drop_last(), sep);
        lemma_split_nonempty(s.drop_last(), sep);
        let p = split_where(s.drop_last(), sep);
        let q = split_where(s, sep);
        assert forall|k: int, i: int| 0 <= k < q.len() && 0 <= i < q[k].len() implies !sep(
            #[trigger] q[k][i],
        ) by {
            if k < p.len() - 1 {
                assert(q[k] == p[k]);
            } else if k == p.len() - 1 && !sep(s.last()) {
                assert(q[k] == p.last().push(s.last()));
                if i < p.last().len() {
                    assert(q[k][i] == p[k][i]);
                }
            } else if k == p.len() - 1 {
                assert(q[k] == p[k]);
            }
        }
    }
}

/// Pieces without the separator character, joined by it and split again at
/// it, come back unchanged.
pub proof fn lemma_split_join(parts: Seq<Seq<char>>, c: char)
    requires
        parts.len() > 0,
        forall|k: int, i: int| 0 <= k < parts.len() && 0 <= i < parts[k].len() ==> #[trigger] parts[k][i] != c,
    ensures
        split_where(join_spec(parts, seq![c]), is_char(c)) == parts,
    decreases parts.len(),
{
    let sep = is_char(c);
    let last = parts.last();
    assert forall|i: int| 0 <= i < last.len() implies !sep(#[trigger] last[i]) by {
        assert(parts[parts.len() - 1][i] != c);
    }
    if parts.len() == 1 {
        lemma_split_extend(Seq::empty(), last, sep);
        assert(Seq::<char>::empty() + last =~= last);
        assert(split_where(Seq::<char>::empty(), sep) == seq![Seq::<char>::empty()]);
        assert(join_spec(parts, seq![c]) == parts[0]);
        assert(split_where(last, sep) =~= parts);
    } else {
        let init = parts.drop_last();
        assert forall|k: int, i: int| 0 <= k < init.len() && 0 <= i < init[k].len() implies #[trigger] init[k][i]
            != c by {
            assert(init[k] == parts[k]);
        }
        lemma_split_join(init, c);
        let j = join_spec(init, seq![c]);
        let jc = j + seq![c];
        assert(jc.drop_last() =~= j);
        assert(jc.last() == c);
        assert(split_where(jc, sep) == init.push(Seq::<char>::empty()));
        lemma_split_extend(jc, last, sep);
        assert(join_spec(parts, seq![c]) == jc + last);
        assert(Seq::<char>::empty() + last =~= last);
        assert(init.push(Seq::<char>::empty()).update(init.len() as int, Seq::<char>::empty() + last)
            =~= parts);
    }
}

/// `str::split_whitespace`: the non-empty runs of non-whitespace characters.
pub open spec fn split_whitespace_spec(s: Seq<char>) -> Seq<Seq<char>> {
    split_where(s, ws_pred()).filter(|p: Seq<char>| p.len() > 0)
}

/// The character sequences held by a vector of character vectors.
pub open spec fn vviews(v: Seq<Vec<char>>) -> Seq<Seq<char>> {
    v.map_values(|x: Vec<char>| x@)
}

/// Splits `v` at every `sep` character (`str::split(sep)`).
pub fn split_chars(v: &[char], sep: char) -> (parts: Vec<Vec<char>>)
    ensures
        vviews(parts@) == split_where(v@, is_char(sep)),
{
    let mut parts: Vec<Vec<char>> = Vec::new();
    let mut cur: Vec<char> = Vec::new();
    let mut i: usize = 0;
    assert(v@.take(0) =~= Seq::<char>::empty());
    assert(vviews(parts@).push(cur@) =~= split_where(v@.take(0), is_char(sep)));
    while i < v.len()
        invariant
            i <= v@.len(),
            vviews(parts@).push(cur@) == split_where(v@.take(i as int), is_char(sep)),
        decreases v.len() - i,
    {
        let ghost before = split_where(v@.take(i as int), is_char(sep));
        assert(v@.take(i + 1).drop_last() =~= v@.take(i as int));
        let c = v[i];
        if c == sep {
            parts.push(cur);
            cur = Vec::new();
            assert(vviews(parts@).push(cur@) =~= before.push(Seq::empty()));
        } else {
            cur.push(c);
            assert(vviews(parts@).push(cur@) =~= before.update(
                before.len() - 1,
                before.last().push(c),
            ));
        }
        i += 1;
    }
    assert(v@.take(v@.len() as int) =~= v@);
    parts.push(cur);
    parts
}

/// The non-empty whitespace-separated words of `v` (`str::split_whitespace`).
pub fn split_whitespace_chars(v: &[char]) -> (words: Vec<Vec<char>>)
    ensures
        vviews(words@) == split_whitespace_spec(v@),
{
    let ghost pred = |p: Seq<char>| p.len() > 0;
    let mut words: Vec<Vec<char>> = Vec::new();
    let mut cur: Vec<char> = Vec::new();
    let mut i: usize = 0;
    let ghost done: Seq<Seq<char>> = Seq::empty();
    assert(v@.take(0) =~= Seq::<char>::empty());
    reveal_with_fuel(Seq::filter, 2);
    assert(done.push(cur@) =~= split_where(v@.take(0), ws_pred()));
    while i < v.len()
        invariant
            i <= v@.len(),
            pred == (|p: Seq<char>| p.len() > 0),
            done.push(cur@) == split_where(v@.take(i as int), ws_pred()),
            vviews(words@) == done.filter(pred),
        decreases v.len() - i,
    {
        let ghost before = split_where(v@.take(i as int), ws_pred());
        assert(v@.take(i + 1).drop_last() =~= v@.take(i as int));
        let c = v[i];
        if is_whitespace(c) {
            proof {
                reveal_with_fuel(Seq::filter, 1);
                assert(done.push(cur@).drop_last() =~= done);
            }
            if cur.len() > 0 {
                words.push(cur);
            }
            proof {
                done = done.push(before.last());
            }
            cur = Vec::new();
            assert(done.push(cur@) =~= before.push(Seq::empty()));
        } else {
            cur.push(c);
            assert(done.push(cur@) =~= before.update(before.len() - 1, before.last().push(c)));
        }
        i += 1;
    }
    assert(v@.take(v@.len() as int) =~= v@);
    proof {
        reveal_with_fuel(Seq::filter, 1);
        assert(done.push(cur@).drop_last() =~= done);
    }
    if cur.len() > 0 {
        words.push(cur);
    }
    words
}


/// A line without the carriage return that ends it, if any.
pub open spec fn strip_cr(x: Seq<char>) -> Seq<char> {
    if x.len() > 0 && x.last() == '\r' {
        x.drop_last()
    } else {
        x
    }
}

/// Every piece without its trailing carriage return.
pub open spec fn strip_all(s: Seq<Seq<char>>) -> Seq<Seq<char>> {
    s.map_values(|x: Seq<char>| strip_cr(x))
}

/// `str::lines`: pieces ended by `\n` (a `\r` before the `\n` is dropped), and
/// the final unterminated piece if it is non-empty.
pub open spec fn lines_spec(s: Seq<char>) -> Seq<Seq<char>> {
    let parts = split_where(s, is_char('\n'));
    let body = strip_all(parts.drop_last());
    if parts.last().len() > 0 {
        body.push(parts.last())
    } else {
        body
    }
}

/// The lines of `v` (`str::lines`).
pub fn lines_chars(v: &[char]) -> (lines: Vec<Vec<char>>)
    ensures
        vviews(lines@) == lines_spec(v@),
{
    let parts = split_chars(v, '\n');
    proof {
        lemma_split_nonempty(v@, is_char('\n'));
    }
    let ghost pv = vviews(parts@);
    let n = parts.len() - 1;
    let mut lines: Vec<Vec<char>> = Vec::new();
    let mut i: usize = 0;
    while i < n
        invariant
            n + 1 == parts@.len(),
            pv == vviews(parts@),
            i <= n,
            lines@.len() == i,
            vviews(lines@) == strip_all(pv.take(i as int)),
        decreases n - i,
    {
        let p = &parts[i];
        let line = if p.len() > 0 && p[p.len() - 1] == '\r' {
            slice_prefix(p.as_slice(), p.len() - 1)
        } else {
            slice_prefix(p.as_slice(), p.len())
        };
        assert(p@.take(p@.len() as int) =~= p@);
        assert(p@.take(p@.len() - 1) =~= p@.drop_last());
        assert(pv[i as int] == p@);
        assert(line@ == strip_cr(pv[i as int]));
        let ghost old_lines = lines@;
        lines.push(line);
        assert(pv.take(i + 1) =~= pv.take(i as int).push(pv[i as int]));
        assert forall|j: int| 0 <= j < i + 1 implies vviews(lines@)[j] == strip_all(pv.take(i + 1))[j] by {
            if j < i {
                assert(lines@[j] == old_lines[j]);
                assert(vviews(old_lines)[j] == strip_all(pv.take(i as int))[j]);
            }
        }
        assert(vviews(lines@) =~= strip_all(pv.take(i + 1)));
        i += 1;
    }
    assert(pv.take(n as int) =~= pv.drop_last());
    let last = &parts[n];
    if last.len() > 0 {
        lines.push(slice_prefix(last.as_slice(), last.len()));
        assert(last@.take(last@.len() as int) =~= last@);
        assert(vviews(lines@) =~= strip_all(pv.drop_last()).push(pv.last()));
    }
    lines
}

/// Joins pieces with a separator (`[..].join(sep)`).
pub open spec fn join_spec(parts: Seq<Seq<char>>, sep: Seq<char>) -> Seq<char>
    decreases parts.len(),
{
    if parts.len() == 0 {
        Seq::empty()
    } else if parts.len() == 1 {
        parts[0]
    } else {
        join_spec(parts.drop_last(), sep) + sep + parts.last()
    }
}

/// Joins the first `count` pieces with `sep`.
pub fn join_chars(parts: &Vec<Vec<char>>, count: usize, sep: &str) -> (s: String)
    requires
        count <= parts@.len(),
    ensures
        s@ == join_spec(vviews(parts@).take(count as int), sep@),
{
    let mut s = String::new();
    let mut i: usize = 0;
    let ghost pv = vviews(parts@);
    assert(pv.take(0) =~= Seq::<Seq<char>>::empty());
    while i < count
        invariant
            count <= parts@.len(),
            pv == vviews(parts@),
            i <= count,
            s@ == join_spec(pv.take(i as int), sep@),
        decreases count - i,
    {
        assert(pv.take(i + 1).drop_last() =~= pv.take(i as int));
        if i > 0 {
            s.append(sep);
        }
        let piece = string_of(parts[i].as_slice());
        s.append(piece.as_str());
        assert(i == 0 ==> s@ =~= pv.take(i + 1)[0]);
        i += 1;
    }
    s
}

/// The decimal digit for `d < 10`.
pub open spec fn digit_char(d: nat) -> char {
    if d == 0 {
        '0'
    } else if d == 1 {
        '1'
    } else if d == 2 {
        '2'
    } else if d == 3 {
        '3'
    } else if d == 4 {
        '4'
    } else if d == 5 {
        '5'
    } else if d == 6 {
        '6'
    } else if d == 7 {
        '7'
    } else if d == 8 {
        '8'
    } else {
        '9'
    }
}

/// The decimal representation of `n`, without leading zeros.
pub open spec fn decimal(n: nat) -> Seq<char>
    decreases n,
{
    if n < 10 {
        seq![digit_char(n)]
    } else {
        decimal(n / 10).push(digit_char(n % 10))
    }
}

/// `s` left-padded with `'0'` to at least `width` characters.
pub open spec fn zero_pad(s: Seq<char>, width: nat) -> Seq<char> {
    if s.len() < width {
        Seq::new((width - s.len()) as nat, |i: int| '0') + s
    } else {
        s
    }
}

/// `format!("{:0w$}", n)`: sign first, then the digits zero-padded so that the
/// whole text is at least `width` characters.
pub open spec fn padded_int(n: int, width: nat) -> Seq<char> {
    if n < 0 {
        seq!['-'] + zero_pad(decimal((-n) as nat), if width >= 1 { (width - 1) as nat } else { 0 })
    } else {
        zero_pad(decimal(n as nat), width)
    }
}

/// Appends the decimal digits of `n`.
pub fn push_decimal(s: &mut String, n: u64)
    ensures
        final(s)@ == old(s)@ + decimal(n as nat),
    decreases n,
{
    if n >= 10 {
        push_decimal(s, n / 10);
    }
    let d = (n % 10) as u32;
    let c = char_from_digit(d);
    push_char(s, c);
    assert(decimal(n as nat) =~= if n < 10 {
        seq![digit_char(n as nat)]
    } else {
        decimal((n / 10) as nat).push(digit_char((n % 10) as nat))
    });
}

/// The character of a decimal digit.
pub fn char_from_digit(d: u32) -> (c: char)
    requires
        d < 10,
    ensures
        c == digit_char(d as nat),
{
    match d {
        0 => '0',
        1 => '1',
        2 => '2',
        3 => '3',
        4 => '4',
        5 => '5',
        6 => '6',
        7 => '7',
        8 => '8',
        _ => '9',
    }
}

/// The number of decimal digits of `n`.
pub proof fn lemma_decimal_len(n: nat)
    ensures
        decimal(n).len() >= 1,
        n < 10 ==> decimal(n).len() == 1,
        10 <= n < 100 ==> decimal(n).len() == 2,
        100 <= n < 1000 ==> decimal(n).len() == 3,
        1000 <= n < 10000 ==> decimal(n).len() == 4,
    decreases n,
{
    if n >= 10 {
        lemma_decimal_len(n / 10);
    }
}

/// The number of decimal digits of `n`.
pub fn decimal_len(n: u64) -> (len: usize)
    ensures
        len == decimal(n as nat).len(),
        len <= 20,
    decreases n,
{
    if n < 10 {
        1
    } else {
        let l = decimal_len(n / 10);
        proof {
            reveal_with_fuel(pow10, 21);
            assert(pow10(19) == 10000000000000000000nat);
            lemma_decimal_len_pow10((n / 10) as nat, 19);
        }
        l + 1
    }
}

/// Ten to the power `k`.
pub open spec fn pow10(k: nat) -> nat
    decreases k,
{
    if k == 0 {
        1
    } else {
        10 * pow10((k - 1) as nat)
    }
}

/// Numbers below `10^k` have at most `k` decimal digits.
proof fn lemma_decimal_len_pow10(n: nat, k: nat)
    requires
        k >= 1,
        n < pow10(k),
    ensures
        decimal(n).len() <= k,
    decreases n,
{
    if n >= 10 {
        if k == 1 {
            assert(pow10(1) == 10 * pow10(0));
        } else {
            assert(pow10(k) == 10 * pow10((k - 1) as nat));
            lemma_decimal_len_pow10(n / 10, (k - 1) as nat);
        }
    }
}


/// Appends `format!("{:0width$}", n)`.
pub fn push_padded(s: &mut String, n: i64, width: usize)
    requires
        1 <= width <= 64,
        n > i64::MIN,
    ensures
        final(s)@ == old(s)@ + padded_int(n as int, width as nat),
{
    let mag: u64 = if n < 0 {
        (-n) as u64
    } else {
        n as u64
    };
    let inner: usize = if n < 0 {
        width - 1
    } else {
        width
    };
    if n < 0 {
        push_char(s, '-');
    }
    let ghost start = s@;
    let len = decimal_len(mag);
    let mut k: usize = len;
    while k < inner
        invariant
            len <= k <= inner || inner < len == k,
            s@ == start + Seq::new((k - len) as nat, |i: int| '0'),
        decreases inner - k,
    {
        push_char(s, '0');
        assert(s@ =~= start + Seq::new((k + 1 - len) as nat, |i: int| '0'));
        k += 1;
    }
    push_decimal(s, mag);
    proof {
        if len < inner {
            assert(zero_pad(decimal(mag as nat), inner as nat) =~= Seq::new(
                (k - len) as nat,
                |i: int| '0',
            ) + decimal(mag as nat));
        } else {
            assert(Seq::new((k - len) as nat, |i: int| '0') =~= Seq::<char>::empty());
        }
        assert(s@ =~= old(s)@ + padded_int(n as int, width as nat));
    }
}


} // verus!
