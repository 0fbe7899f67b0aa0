//! Text measures and number layout for chat output: the visible length of a
//! line that holds IRC formatting codes, truncation, and amounts and money
//! grouped by thousands.
use crate::catalog::chars_of;
use vstd::prelude::*;
use vstd::string::*;

verus! {

pub open spec fn digit_char(d: nat) -> char {
    if d == 0 {
        '0'
    } else if d == 1 {
        '1'
    } else if d == 2 {
        '2'
    } else if d == 3 {
        '3'
    } else if d == 4 {
        '4'
    } else if d == 5 {
        '5'
    } else if d == 6 {
        '6'
    } else if d == 7 {
        '7'
    } else if d == 8 {
        '8'
    } else {
        '9'
    }
}

/// The decimal digits of `n`.
pub open spec fn decimal(n: nat) -> Seq<char>
    decreases n,
{
    if n < 10 {
        seq![digit_char(n)]
    } else {
        decimal(n / 10).push(digit_char(n % 10))
    }
}

/// `s` with a comma before every group of three characters counted from the
/// right.
pub open spec fn grouped(s: Seq<char>) -> Seq<char>
    decreases s.len(),
{
    if s.len() <= 3 {
        s
    } else {
        grouped(s.take(s.len() - 3)) + seq![','] + s.skip(s.len() - 3)
    }
}

pub open spec fn amount_text(n: nat) -> Seq<char> {
    grouped(decimal(n))
}

/// The two digits shown after the point for a fraction of `f`
/// ten-thousandths: its whole hundredths, padded with a zero in front to two.
pub open spec fn fraction_text(f: nat) -> Seq<char> {
    let d = decimal(f / 100);
    if d.len() < 2 {
        seq!['0'] + d
    } else {
        d
    }
}

/// `$`, the whole units grouped by thousands, `.`, and two characters of the
/// four-digit fraction.
pub open spec fn money_text(v: nat) -> Seq<char> {
    seq!['$'] + grouped(decimal(v / 10000)) + seq!['.'] + fraction_text(v % 10000)
}

pub open spec fn is_number_char(c: char) -> bool {
    c == ',' || exists|d: nat| d < 10 && c == digit_char(d)
}

fn digit_of(d: u128) -> (r: char)
    requires
        d < 10,
    ensures
        r == digit_char(d as nat),
{
    if d == 0 {
        '0'
    } else if d == 1 {
        '1'
    } else if d == 2 {
        '2'
    } else if d == 3 {
        '3'
    } else if d == 4 {
        '4'
    } else if d == 5 {
        '5'
    } else if d == 6 {
        '6'
    } else if d == 7 {
        '7'
    } else if d == 8 {
        '8'
    } else {
        '9'
    }
}

fn decimal_chars(n: u128) -> (r: Vec<char>)
    ensures
        r@ == decimal(n as nat),
{
    let mut out: Vec<char> = Vec::new();
    let mut m = n;
    while m >= 10
        invariant
            decimal(n as nat) == decimal(m as nat) + out@,
        decreases m,
    {
        let ghost prev = out@;
        out.insert(0, digit_of(m % 10));
        assert(decimal(m as nat) == decimal((m / 10) as nat).push(digit_char((m % 10) as nat)));
        assert(decimal(m as nat) + prev =~= decimal((m / 10) as nat) + out@);
        m = m / 10;
    }
    let ghost prev = out@;
    out.insert(0, digit_of(m));
    assert(decimal(m as nat) + prev =~= out@);
    out
}

fn group_chars(s: &Vec<char>) -> (r: Vec<char>)
    ensures
        r@ == grouped(s@),
{
    let mut out: Vec<char> = Vec::new();
    let mut k: usize = s.len();
    assert(s@.take(k as int) + out@ =~= s@);
    while k > 3
        invariant
            k <= s@.len(),
            grouped(s@) == grouped(s@.take(k as int)) + out@,
        decreases k,
    {
        let ghost prev = out@;
        let ghost t = s@.take(k as int);
        out.insert(0, s[k - 1]);
        out.insert(0, s[k - 2]);
        out.insert(0, s[k - 3]);
        out.insert(0, ',');
        assert(t.take(t.len() - 3) =~= s@.take(k - 3));
        assert(seq![','] + t.skip(t.len() - 3) + prev =~= out@);
        assert(grouped(t) == grouped(s@.take(k - 3)) + seq![','] + t.skip(t.len() - 3));
        assert(grouped(t) + prev =~= grouped(s@.take(k - 3)) + out@);
        k = k - 3;
    }
    let mut i: usize = k;
    while i > 0
        invariant
            i <= k <= 3,
            k <= s@.len(),
            grouped(s@) == s@.take(i as int) + out@ || i == k && grouped(s@) == grouped(
                s@.take(k as int),
            ) + out@,
            i < k ==> grouped(s@) == s@.take(i as int) + out@,
            i == k ==> grouped(s@) == s@.take(k as int) + out@,
        decreases i,
    {
        let ghost prev = out@;
        out.insert(0, s[i - 1]);
        assert(s@.take(i as int) + prev =~= s@.take(i - 1) + out@);
        i = i - 1;
    }
    assert(s@.take(0) + out@ =~= out@);
    out
}

proof fn lemma_decimal_len_below_hundred(n: nat)
    requires
        n < 100,
    ensures
        decimal(n).len() <= 2,
{
    if n >= 10 {
        assert(decimal(n / 10).len() == 1);
    }
}

/// Appends the text of `c`, a digit or a comma.
fn push_number_char(s: &mut String, c: char)
    requires
        is_number_char(c),
    ensures
        final(s)@ == old(s)@.push(c),
{
    proof {
        reveal_strlit(",");
        reveal_strlit("0");
        reveal_strlit("1");
        reveal_strlit("2");
        reveal_strlit("3");
        reveal_strlit("4");
        reveal_strlit("5");
        reveal_strlit("6");
        reveal_strlit("7");
        reveal_strlit("8");
        reveal_strlit("9");
    }
    let piece = if c == ',' {
        ","
    } else if c == '0' {
        "0"
    } else if c == '1' {
        "1"
    } else if c == '2' {
        "2"
    } else if c == '3' {
        "3"
    } else if c == '4' {
        "4"
    } else if c == '5' {
        "5"
    } else if c == '6' {
        "6"
    } else if c == '7' {
        "7"
    } else if c == '8' {
        "8"
    } else {
        "9"
    };
    s.append(piece);
    assert(final(s)@ =~= old(s)@.push(c));
}

proof fn lemma_decimal_number_chars(n: nat)
    ensures
        forall|i: int| 0 <= i < decimal(n).len() ==> is_number_char(#[trigger] decimal(n)[i]),
    decreases n,
{
    if n >= 10 {
        lemma_decimal_number_chars(n / 10);
        let last = (n % 10) as nat;
        assert(is_number_char(digit_char(last)));
        let d = decimal(n);
        assert forall|i: int| 0 <= i < d.len() implies is_number_char(#[trigger] d[i]) by {
            if i < d.len() - 1 {
                assert(d[i] == decimal(n / 10)[i]);
            } else {
                assert(d[i] == digit_char(last));
            }
        }
    } else {
        assert(is_number_char(digit_char(n)));
    }
}

proof fn lemma_grouped_number_chars(s: Seq<char>)
    requires
        forall|i: int| 0 <= i < s.len() ==> is_number_char(#[trigger] s[i]),
    ensures
        forall|i: int| 0 <= i < grouped(s).len() ==> is_number_char(#[trigger] grouped(s)[i]),
    decreases s.len(),
{
    if s.len() > 3 {
        let t = s.take(s.len() - 3);
        assert forall|i: int| 0 <= i < t.len() implies is_number_char(#[trigger] t[i]) by {
            assert(t[i] == s[i]);
        }
        lemma_grouped_number_chars(t);
        let g = grouped(s);
        assert forall|i: int| 0 <= i < g.len() implies is_number_char(#[trigger] g[i]) by {
            let gt = grouped(t);
            if i < gt.len() {
                assert(g[i] == gt[i]);
            } else if i > gt.len() {
                assert(g[i] == s[s.len() - 3 + (i - gt.len() - 1)]);
            }
        }
    }
}

fn append_number_chars(s: &mut String, cs: &Vec<char>)
    requires
        forall|i: int| 0 <= i < cs@.len() ==> is_number_char(#[trigger] cs@[i]),
    ensures
        final(s)@ == old(s)@ + cs@,
{
    let mut i: usize = 0;
    while i < cs.len()
        invariant
            i <= cs@.len(),
            forall|k: int| 0 <= k < cs@.len() ==> is_number_char(#[trigger] cs@[k]),
            s@ == old(s)@ + cs@.take(i as int),
        decreases cs@.len() - i,
    {
        push_number_char(s, cs[i]);
        assert(old(s)@ + cs@.take(i + 1) =~= (old(s)@ + cs@.take(i as int)).push(cs@[i as int]));
        i = i + 1;
    }
    assert(cs@.take(cs@.len() as int) =~= cs@);
}

fn amount_string(n: u128) -> (r: String)
    ensures
        r@ == amount_text(n as nat),
{
    let digits = decimal_chars(n);
    let g = group_chars(&digits);
    proof {
        lemma_decimal_number_chars(n as nat);
        lemma_grouped_number_chars(decimal(n as nat));
    }
    let mut out = String::new();
    append_number_chars(&mut out, &g);
    out
}

/// Money in the `$1,234.56` form.
pub trait PrettyMoney {
    spec fn spec_money_text(&self) -> Seq<char>;

    fn pretty_money(&self) -> (r: String)
        ensures
            r@ == self.spec_money_text(),
    ;
}

/// An amount in the `1,234` form.
pub trait PrettyAmount {
    spec fn spec_amount_text(&self) -> Seq<char>;

    fn pretty_amount(&self) -> (r: String)
        ensures
            r@ == self.spec_amount_text(),
    ;
}

impl PrettyAmount for usize {
    open spec fn spec_amount_text(&self) -> Seq<char> {
        amount_text(*self as nat)
    }

    fn pretty_amount(&self) -> (r: String) {
        amount_string(*self as u128)
    }
}

impl PrettyMoney for u128 {
    open spec fn spec_money_text(&self) -> Seq<char> {
        money_text(*self as nat)
    }

    fn pretty_money(&self) -> (r: String) {
        proof {
            reveal_strlit("$");
            reveal_strlit(".");
            reveal_strlit("0");
        }
        let units = amount_string(*self / 10000);
        let frac = decimal_chars(*self % 10000 / 100);
        proof {
            lemma_decimal_number_chars((*self % 10000 / 100) as nat);
            lemma_decimal_len_below_hundred((*self % 10000 / 100) as nat);
        }
        let mut out = String::from_str("$").concat(units.as_str()).concat(".");
        if frac.len() < 2 {
            out.append("0");
            append_number_chars(&mut out, &frac);
        } else {
            append_number_chars(&mut out, &frac);
        }
        assert(out@ =~= money_text(*self as nat));
        out
    }
}


/// The IRC color code of color `n`: `\x03` and two digits.
pub open spec fn color_code(n: nat) -> Seq<char> {
    seq!['\x03', digit_char(n / 10), digit_char(n % 10)]
}

/// `s` with every occurrence of `code` taken out, scanning left to right.
pub open spec fn without_code(s: Seq<char>, code: Seq<char>) -> Seq<char>
    decreases s.len(),
{
    if s.len() < code.len() || code.len() == 0 {
        s
    } else if s.take(code.len() as int) == code {
        without_code(s.skip(code.len() as int), code)
    } else {
        seq![s[0]] + without_code(s.skip(1), code)
    }
}

/// `s` once the codes of colors `0..n` are taken out, one color after the
/// other.
pub open spec fn without_colors(s: Seq<char>, n: nat) -> Seq<char>
    decreases n,
{
    if n == 0 {
        s
    } else {
        without_code(without_colors(s, (n - 1) as nat), color_code((n - 1) as nat))
    }
}

/// The IRC control characters for bold, italics, underline, strikethrough,
/// reverse and reset.
pub open spec fn is_format_char(c: char) -> bool {
    c == '\x02' || c == '\x1d' || c == '\x1f' || c == '\x1e' || c == '\x12' || c == '\x0f'
}

pub open spec fn visible_count(s: Seq<char>) -> nat
    decreases s.len(),
{
    if s.len() == 0 {
        0
    } else {
        visible_count(s.drop_last()) + if is_format_char(s.last()) {
            0nat
        } else {
            1nat
        }
    }
}

/// How many characters of `s` show in a chat client: the codes of the 16
/// colors and the control characters do not.
pub open spec fn irc_len(s: Seq<char>) -> nat {
    visible_count(without_colors(s, 16))
}

/// `s` cut to `width` visible characters: when longer, its first `width - 3`
/// characters and `...`.
pub open spec fn truncated(s: Seq<char>, width: nat) -> Seq<char> {
    if irc_len(s) <= width {
        s
    } else {
        s.take(width - 3) + "..."@
    }
}

fn remove_code(s: &Vec<char>, c0: char, c1: char, c2: char) -> (r: Vec<char>)
    ensures
        r@ == without_code(s@, seq![c0, c1, c2]),
{
    let ghost code = seq![c0, c1, c2];
    let mut out: Vec<char> = Vec::new();
    let mut i: usize = 0;
    assert(s@.skip(0) == s@);
    while i < s.len()
        invariant
            code == seq![c0, c1, c2],
            i <= s@.len(),
            without_code(s@, code) == out@ + without_code(s@.skip(i as int), code),
        decreases s@.len() - i,
    {
        let ghost rest = s@.skip(i as int);
        assert(code[0] == c0 && code[1] == c1 && code[2] == c2);
        if s.len() - i >= 3 && s[i] == c0 && s[i + 1] == c1 && s[i + 2] == c2 {
            assert(rest.take(3) =~= code);
            assert(rest.skip(3) =~= s@.skip(i + 3));
            i = i + 3;
        } else {
            let ghost prev = out@;
            out.push(s[i]);
            assert(rest.skip(1) =~= s@.skip(i + 1));
            proof {
                if rest.len() < 3 {
                    assert(without_code(rest, code) == rest);
                    assert(without_code(rest.skip(1), code) == rest.skip(1));
                    assert(rest =~= seq![rest[0]] + rest.skip(1));
                } else {
                    if rest.take(3) == code {
                        assert(rest.take(3)[0] == s@[i as int]);
                        assert(rest.take(3)[1] == s@[i + 1]);
                        assert(rest.take(3)[2] == s@[i + 2]);
                    }
                    assert(rest.take(3) != code);
                }
            }
            assert(prev + without_code(rest, code) =~= out@ + without_code(s@.skip(i + 1), code));
            i = i + 1;
        }
    }
    assert(without_code(s@.skip(i as int), code) == s@.skip(i as int));
    assert(out@ + s@.skip(i as int) =~= out@);
    out
}

fn count_visible(s: &Vec<char>) -> (r: usize)
    ensures
        r == visible_count(s@),
{
    let mut n: usize = 0;
    let mut i: usize = 0;
    while i < s.len()
        invariant
            i <= s@.len(),
            n <= i,
            n == visible_count(s@.take(i as int)),
        decreases s@.len() - i,
    {
        assert(s@.take(i + 1).drop_last() == s@.take(i as int));
        let c = s[i];
        if !(c == '\x02' || c == '\x1d' || c == '\x1f' || c == '\x1e' || c == '\x12' || c == '\x0f') {
            n = n + 1;
        }
        i = i + 1;
    }
    assert(s@.take(s@.len() as int) == s@);
    n
}

/// Measures and truncation of chat text.
pub trait StringManips {
    spec fn spec_text(&self) -> Seq<char>;

    fn irc_safe_len(&self) -> (r: usize)
        ensures
            r == irc_len(self.spec_text()),
    ;

    fn pretty_truncate(&self, max_width: usize) -> (r: String)
        requires
            max_width > 3,
        ensures
            r@ == truncated(self.spec_text(), max_width as nat),
    ;
}

proof fn lemma_without_code_shrinks(s: Seq<char>, code: Seq<char>)
    ensures
        without_code(s, code).len() <= s.len(),
    decreases s.len(),
{
    if s.len() >= code.len() && code.len() > 0 {
        if s.take(code.len() as int) == code {
            lemma_without_code_shrinks(s.skip(code.len() as int), code);
        } else {
            lemma_without_code_shrinks(s.skip(1), code);
        }
    }
}

proof fn lemma_visible_count_bound(s: Seq<char>)
    ensures
        visible_count(s) <= s.len(),
    decreases s.len(),
{
    if s.len() > 0 {
        lemma_visible_count_bound(s.drop_last());
    }
}

proof fn lemma_without_colors_shrinks(s: Seq<char>, n: nat)
    ensures
        without_colors(s, n).len() <= s.len(),
    decreases n,
{
    if n > 0 {
        lemma_without_colors_shrinks(s, (n - 1) as nat);
        lemma_without_code_shrinks(without_colors(s, (n - 1) as nat), color_code((n - 1) as nat));
    }
}

pub(crate) proof fn lemma_irc_len_bound(s: Seq<char>)
    ensures
        irc_len(s) <= s.len(),
{
    lemma_without_colors_shrinks(s, 16);
    lemma_visible_count_bound(without_colors(s, 16));
}

impl StringManips for String {
    open spec fn spec_text(&self) -> Seq<char> {
        self@
    }

    fn irc_safe_len(&self) -> (r: usize) {
        let mut cur = chars_of(self.as_str());
        let mut n: u128 = 0;
        while n < 16
            invariant
                n <= 16,
                cur@ == without_colors(self@, n as nat),
            decreases 16 - n,
        {
            cur = remove_code(&cur, '\x03', digit_of(n / 10), digit_of(n % 10));
            n = n + 1;
        }
        count_visible(&cur)
    }

    fn pretty_truncate(&self, max_width: usize) -> (r: String) {
        if self.irc_safe_len() <= max_width {
            return self.clone();
        }
        proof {
            lemma_without_colors_shrinks(self@, 16);
            lemma_visible_count_bound(without_colors(self@, 16));
        }
        let head = self.as_str().substring_char(0, max_width - 3);
        head.to_owned().concat("...")
    }
}


/// `line` without its last two characters (the `, ` after its last name).
pub open spec fn without_separator(line: Seq<char>) -> Seq<char> {
    line.take(sat_minus(line.len(), 2))
}

pub open spec fn sat_minus(a: nat, b: nat) -> int {
    if a >= b {
        a - b
    } else {
        0
    }
}

/// The rows finished and the row being filled once `names` are laid out in
/// order, each followed by `, `: a name that would push the row past
/// `width - 2` visible characters starts a new row.
pub open spec fn wrap_state(names: Seq<Seq<char>>, width: nat) -> (Seq<Seq<char>>, Seq<char>)
    decreases names.len(),
{
    if names.len() == 0 {
        (Seq::empty(), Seq::empty())
    } else {
        let (rows, line) = wrap_state(names.drop_last(), width);
        let piece = names.last() + ", "@;
        if irc_len(line) + irc_len(piece) > width - 2 {
            (rows.push(without_separator(line)), piece)
        } else {
            (rows, line + piece)
        }
    }
}

/// The rows of `names` laid out by `wrap_state`, the last row included when
/// it shows anything.
pub open spec fn wrapped(names: Seq<Seq<char>>, width: nat) -> Seq<Seq<char>> {
    let (rows, line) = wrap_state(names, width);
    if irc_len(line) > 0 {
        rows.push(without_separator(line))
    } else {
        rows
    }
}

/// Lays out `names`, last first, as comma-separated rows that fit in
/// `width - 2` visible characters.
pub fn wrap_names(names: &Vec<String>, width: usize) -> (r: Vec<String>)
    requires
        width >= 2,
    ensures
        crate::catalog::string_views(r@) == wrapped(
            crate::catalog::string_views(names@).reverse(),
            width as nat,
        ),
{
    let ghost order = crate::catalog::string_views(names@).reverse();
    let mut rows: Vec<String> = Vec::new();
    let mut line = String::new();
    let mut k: usize = 0;
    while k < names.len()
        invariant
            width >= 2,
            order == crate::catalog::string_views(names@).reverse(),
            k <= names@.len(),
            (crate::catalog::string_views(rows@), line@) == wrap_state(order.take(k as int), width as nat),
        decreases names@.len() - k,
    {
        proof {
            reveal_strlit(", ");
        }
        let name = &names[names.len() - 1 - k];
        assert(order[k as int] == name@);
        assert(order.take(k + 1).drop_last() == order.take(k as int));
        let piece = name.clone().concat(", ");
        let shown = line.irc_safe_len();
        let added = piece.irc_safe_len();
        proof {
            lemma_irc_len_bound(line@);
            lemma_irc_len_bound(piece@);
        }
        if (shown as u128) + (added as u128) > (width - 2) as u128 {
            let n = line.as_str().unicode_len();
            let keep = if n >= 2 {
                n - 2
            } else {
                0
            };
            let finished = line.as_str().substring_char(0, keep).to_owned();
            let ghost prev = rows@;
            rows.push(finished);
            assert(crate::catalog::string_views(rows@) =~= crate::catalog::string_views(prev).push(
                finished@,
            ));
            line = piece;
        } else {
            line.append(piece.as_str());
        }
        k = k + 1;
    }
    assert(order.take(names@.len() as int) =~= order);
    if line.irc_safe_len() > 0 {
        let n = line.as_str().unicode_len();
        let keep = if n >= 2 {
            n - 2
        } else {
            0
        };
        let finished = line.as_str().substring_char(0, keep).to_owned();
        let ghost prev = rows@;
        rows.push(finished);
        assert(crate::catalog::string_views(rows@) =~= crate::catalog::string_views(prev).push(
            finished@,
        ));
    }
    rows
}


/// Text without IRC codes or control characters, all ASCII: what shows is
/// every character.
pub open spec fn plain_text(s: Seq<char>) -> bool {
    vstd::utf8::is_ascii_chars(s) && forall|i: int|
        0 <= i < s.len() ==> #[trigger] s[i] != '\x03' && !is_format_char(s[i])
}

proof fn lemma_without_code_plain(s: Seq<char>, code: Seq<char>)
    requires
        code.len() > 0,
        code[0] == '\x03',
        forall|i: int| 0 <= i < s.len() ==> #[trigger] s[i] != '\x03',
    ensures
        without_code(s, code) == s,
    decreases s.len(),
{
    if s.len() >= code.len() {
        assert(s.take(code.len() as int)[0] == s[0]);
        assert(s.take(code.len() as int) != code);
        let rest = s.skip(1);
        assert forall|i: int| 0 <= i < rest.len() implies #[trigger] rest[i] != '\x03' by {
            assert(rest[i] == s[i + 1]);
        }
        lemma_without_code_plain(rest, code);
        assert(seq![s[0]] + rest =~= s);
    }
}

proof fn lemma_without_colors_plain(s: Seq<char>, n: nat)
    requires
        forall|i: int| 0 <= i < s.len() ==> #[trigger] s[i] != '\x03',
    ensures
        without_colors(s, n) == s,
    decreases n,
{
    if n > 0 {
        lemma_without_colors_plain(s, (n - 1) as nat);
        let code = color_code((n - 1) as nat);
        assert(code[0] == '\x03');
        lemma_without_code_plain(s, code);
    }
}

proof fn lemma_visible_count_plain(s: Seq<char>)
    requires
        forall|i: int| 0 <= i < s.len() ==> !is_format_char(#[trigger] s[i]),
    ensures
        visible_count(s) == s.len(),
    decreases s.len(),
{
    if s.len() > 0 {
        let rest = s.drop_last();
        assert forall|i: int| 0 <= i < rest.len() implies !is_format_char(#[trigger] rest[i]) by {
            assert(rest[i] == s[i]);
        }
        lemma_visible_count_plain(rest);
    }
}

/// Plain text shows all of its characters.
pub proof fn lemma_plain_irc_len(s: Seq<char>)
    requires
        plain_text(s),
    ensures
        irc_len(s) == s.len(),
{
    lemma_without_colors_plain(s, 16);
    lemma_visible_count_plain(s);
}

} // verus!
