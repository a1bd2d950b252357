use vstd::prelude::*;

verus! {

/// The character of the decimal digit `d`.
pub open spec fn digit_char(d: int) -> char {
    (d + 48) as char
}

/// The decimal digits of `n`, without leading zeros.
pub open spec fn decimal(n: nat) -> Seq<char>
    decreases n,
{
    if n < 10 {
        seq![digit_char(n as int)]
    } else {
        decimal(n / 10).push(digit_char((n % 10) as int))
    }
}

/// `v` as `{}` prints an integer: a minus sign for a negative number, then
/// the digits of its magnitude.
pub open spec fn decimal_int(v: int) -> Seq<char> {
    if v < 0 {
        seq!['-'] + decimal((-v) as nat)
    } else {
        decimal(v as nat)
    }
}

/// `text` as `{:0>width}` prints it: filled with zeros on the left up to `width`.
pub open spec fn zero_padded(text: Seq<char>, width: nat) -> Seq<char> {
    if text.len() >= width {
        text
    } else {
        Seq::new((width - text.len()) as nat, |i: int| '0') + text
    }
}

/// `b` as `{}` prints a boolean.
pub open spec fn bool_text(b: bool) -> Seq<char> {
    if b {
        "true"@
    } else {
        "false"@
    }
}

/// Appends the decimal digits of `n` to `out`.
pub fn append_decimal(out: &mut String, n: u64)
    ensures
        final(out)@ == old(out)@ + decimal(n as nat),
    decreases n,
{
    if n >= 10 {
        append_decimal(out, n / 10);
    }
    let d = (n % 10) as usize;
    let digits = "0123456789";
    proof {
        reveal_strlit("0123456789");
    }
    let digit = digits.substring_ascii(d, d + 1);
    assert(digit@ =~= seq![digit_char(d as int)]);
    out.append(digit);
}

/// Appends the decimal text of `v` to `out`.
pub fn append_i64(out: &mut String, v: i64)
    ensures
        final(out)@ == old(out)@ + decimal_int(v as int),
{
    if v < 0 {
        proof {
            reveal_strlit("-");
        }
        out.append("-");
        let magnitude: u64 = ((-(v + 1)) as u64) + 1;
        append_decimal(out, magnitude);
    } else {
        append_decimal(out, v as u64);
    }
}

/// The decimal text of `v`.
pub fn format_i64(v: i64) -> (res: String)
    ensures
        res@ == decimal_int(v as int),
{
    let mut out = String::new();
    append_i64(&mut out, v);
    out
}

/// The decimal text of `v`, filled with zeros on the left up to `width`.
pub fn format_i64_padded(v: i64, width: usize) -> (res: String)
    ensures
        res@ == zero_padded(decimal_int(v as int), width as nat),
{
    let text = format_i64(v);
    let len = text.as_str().unicode_len();
    let mut out = String::new();
    let mut filled: usize = len;
    proof {
        reveal_strlit("0");
    }
    while filled < width
        invariant
            len == text@.len(),
            len <= filled,
            filled <= width || len >= width,
            len >= width ==> filled == len,
            out@ =~= Seq::new((filled - len) as nat, |i: int| '0'),
            "0"@ == seq!['0'],
        decreases width - filled,
    {
        out.append("0");
        filled = filled + 1;
    }
    let ghost zeros = out@;
    out.append(text.as_str());
    if len >= width {
        assert(zeros =~= Seq::<char>::empty());
    } else {
        assert(filled == width);
    }
    assert(out@ =~= zero_padded(decimal_int(v as int), width as nat));
    out
}

} // verus!

verus! {

/// The text of the argument that the `k`-th placeholder takes: the `k`-th
/// argument, or nothing where the arguments have run out.
pub open spec fn argument(args: Seq<Seq<char>>, k: int) -> Seq<char> {
    if 0 <= k < args.len() {
        args[k]
    } else {
        Seq::empty()
    }
}

/// `template` filled from position `i` on, as `format!` fills a format
/// string: each `{}` takes the next argument (from the `k`-th on), `{{` stands
/// for `{`, `}}` for `}`, and every other character stands for itself.
pub open spec fn fill_from(template: Seq<char>, args: Seq<Seq<char>>, i: int, k: int) -> Seq<char>
    decreases template.len() - i,
{
    if i < 0 || i >= template.len() {
        Seq::empty()
    } else if i + 1 < template.len() && template[i] == '{' && template[i + 1] == '}' {
        argument(args, k) + fill_from(template, args, i + 2, k + 1)
    } else if i + 1 < template.len() && template[i] == '{' && template[i + 1] == '{' {
        seq!['{'] + fill_from(template, args, i + 2, k)
    } else if i + 1 < template.len() && template[i] == '}' && template[i + 1] == '}' {
        seq!['}'] + fill_from(template, args, i + 2, k)
    } else {
        seq![template[i]] + fill_from(template, args, i + 1, k)
    }
}

/// `template` filled with `args`.
pub open spec fn fill(template: Seq<char>, args: Seq<Seq<char>>) -> Seq<char> {
    fill_from(template, args, 0, 0)
}

/// The texts of a list of strings.
pub open spec fn texts(args: Seq<String>) -> Seq<Seq<char>> {
    args.map_values(|s: String| s@)
}

fn chars_of(s: &str) -> (res: Vec<char>)
    ensures
        res@ == s@,
{
    let mut chars: Vec<char> = Vec::new();
    for c in it: s.chars()
        invariant
            chars@ == it.seq().take(it.index() as int),
    {
        chars.push(c);
    }
    chars
}

} // verus!

verus! {

/// Fills `template` with `args`: each `{}` takes the next argument, `{{` and
/// `}}` stand for `{` and `}`.
pub fn fill_template(template: &str, args: &[String]) -> (res: String)
    ensures
        res@ == fill(template@, texts(args@)),
{
    let chars = chars_of(template);
    let n = chars.len();
    let ghost t = template@;
    let ghost a = texts(args@);
    let mut out = String::new();
    let mut i: usize = 0;
    let mut k: usize = 0;
    let mut run_start: usize = 0;
    while i < n
        invariant
            chars@ == t,
            t == template@,
            a == texts(args@),
            n == t.len(),
            run_start <= i <= n,
            k <= i,
            out@ + t.subrange(run_start as int, i as int) + fill_from(t, a, i as int, k as int) == fill(t, a),
        decreases n - i,
    {
        let c = chars[i];
        let special = i + 1 < n && ((c == '{' && (chars[i + 1] == '}' || chars[i + 1] == '{')) || (c == '}'
            && chars[i + 1] == '}'));
        if special {
            let ghost before = out@;
            let run = template.substring_char(run_start, i);
            out.append(run);
            assert(out@ == before + t.subrange(run_start as int, i as int));
            if chars[i + 1] == '}' && c == '{' {
                if k < args.len() {
                    out.append(args[k].as_str());
                }
                proof {
                    assert(argument(a, k as int) == (if k < args@.len() { args@[k as int]@ } else { Seq::<char>::empty() }));
                }
                k = k + 1;
            } else {
                let brace = template.substring_char(i, i + 1);
                out.append(brace);
            }
            i = i + 2;
            run_start = i;
            assert(t.subrange(run_start as int, i as int) =~= Seq::<char>::empty());
        } else {
            assert(t.subrange(run_start as int, i + 1) =~= t.subrange(run_start as int, i as int).push(t[i as int]));
            i = i + 1;
        }
    }
    let run = template.substring_char(run_start, n);
    out.append(run);
    assert(out@ =~= fill(t, a));
    out
}

} // verus!

verus! {

/// The number that a text of decimal digits stands for.
pub open spec fn digits_value(s: Seq<char>) -> int
    decreases s.len(),
{
    if s.len() == 0 {
        0
    } else {
        digits_value(s.drop_last()) * 10 + (s.last() as int - 48)
    }
}

/// Every character of `s` is a decimal digit.
pub open spec fn all_digits(s: Seq<char>) -> bool {
    forall|i: int| 0 <= i < s.len() ==> '0' <= #[trigger] s[i] <= '9'
}

/// The decimal text of a number reads back as that number: it is made of
/// digits only, has no leading zero (but for 0 itself), and stands for `n`.
pub proof fn lemma_decimal_reads_back(n: nat)
    ensures
        all_digits(decimal(n)),
        decimal(n).len() >= 1,
        decimal(n)[0] == '0' ==> n == 0,
        digits_value(decimal(n)) == n,
    decreases n,
{
    if n >= 10 {
        lemma_decimal_reads_back(n / 10);
        let prefix = decimal(n / 10);
        let d = decimal(n);
        assert(d.drop_last() =~= prefix);
        assert(d[0] == prefix[0]);
        let r = (n % 10) as int;
        assert(digit_char(r) as int == r + 48);
        assert(n == (n / 10) * 10 + r);
        assert(d.last() == digit_char(r));
        assert(digits_value(d) == digits_value(prefix) * 10 + (d.last() as int - 48));
        assert forall|i: int| 0 <= i < d.len() implies '0' <= #[trigger] d[i] <= '9' by {
            if i < prefix.len() {
                assert(d[i] == prefix[i]);
            }
        }
    } else {
        let d = decimal(n);
        assert(d.drop_last() =~= Seq::<char>::empty());
        assert(digit_char(n as int) as int == n + 48);
        assert(d.last() == digit_char(n as int));
        assert(digits_value(d.drop_last()) == 0);
        assert(digits_value(d) == digits_value(d.drop_last()) * 10 + (d.last() as int - 48));
    }
}

/// A template without braces is left as it is, whatever the arguments.
pub proof fn lemma_fill_without_braces(template: Seq<char>, args: Seq<Seq<char>>)
    requires
        forall|i: int| 0 <= i < template.len() ==> #[trigger] template[i] != '{' && template[i] != '}',
    ensures
        fill(template, args) == template,
{
    lemma_fill_from_without_braces(template, args, 0, 0);
    assert(template.subrange(0, template.len() as int) =~= template);
}

proof fn lemma_fill_from_without_braces(template: Seq<char>, args: Seq<Seq<char>>, i: int, k: int)
    requires
        0 <= i <= template.len(),
        forall|j: int| 0 <= j < template.len() ==> #[trigger] template[j] != '{' && template[j] != '}',
    ensures
        fill_from(template, args, i, k) == template.subrange(i, template.len() as int),
    decreases template.len() - i,
{
    if i < template.len() {
        lemma_fill_from_without_braces(template, args, i + 1, k);
        assert(template.subrange(i, template.len() as int) =~= seq![template[i]] + template.subrange(
            i + 1,
            template.len() as int,
        ));
    } else {
        assert(template.subrange(i, template.len() as int) =~= Seq::<char>::empty());
    }
}

} // verus!

verus! {

proof fn lemma_zeros_value(k: nat)
    ensures
        digits_value(Seq::new(k, |i: int| '0')) == 0,
    decreases k,
{
    if k > 0 {
        lemma_zeros_value((k - 1) as nat);
        assert(Seq::new(k, |i: int| '0').drop_last() =~= Seq::new((k - 1) as nat, |i: int| '0'));
    }
}

proof fn lemma_zeros_prefix_value(k: nat, s: Seq<char>)
    ensures
        digits_value(Seq::new(k, |i: int| '0') + s) == digits_value(s),
    decreases s.len(),
{
    let z = Seq::new(k, |i: int| '0');
    if s.len() == 0 {
        assert(z + s =~= z);
        lemma_zeros_value(k);
    } else {
        lemma_zeros_prefix_value(k, s.drop_last());
        assert((z + s).drop_last() =~= z + s.drop_last());
    }
}

/// A number's decimal text, filled with zeros on the left, still reads back
/// as the number: it is made of digits only, and is at least `width` long.
pub proof fn lemma_zero_padded_reads_back(n: nat, width: nat)
    ensures
        all_digits(zero_padded(decimal(n), width)),
        zero_padded(decimal(n), width).len() >= width,
        zero_padded(decimal(n), width).len() == if decimal(n).len() >= width { decimal(n).len() } else { width as nat },
        digits_value(zero_padded(decimal(n), width)) == n,
{
    lemma_decimal_reads_back(n);
    let d = decimal(n);
    if d.len() < width {
        let k = (width - d.len()) as nat;
        let z = Seq::new(k, |i: int| '0');
        lemma_zeros_prefix_value(k, d);
        assert forall|i: int| 0 <= i < (z + d).len() implies '0' <= #[trigger] (z + d)[i] <= '9' by {
            if i >= k {
                assert((z + d)[i] == d[i - k]);
            }
        }
    }
}

/// The decimal text of a number below 10, 100 or 1000 has at most 1, 2 or
/// 3 digits.
pub proof fn lemma_decimal_short(n: nat)
    ensures
        n < 10 ==> decimal(n).len() == 1,
        n < 100 ==> decimal(n).len() <= 2,
        n < 1000 ==> decimal(n).len() <= 3,
{
    if n >= 10 {
        assert(decimal(n).len() == decimal(n / 10).len() + 1);
        if n >= 100 {
            assert(decimal(n / 10).len() == decimal(n / 100).len() + 1) by {
                assert(n / 10 / 10 == n / 100);
            }
        }
    }
}

} // verus!
