//! The source printer: the algebra realized as formatted text.
//!
//! A second, independent interpretation of the same construction operations,
//! consuming nothing from the bytecode builder: each operation directly
//! assembles a human-readable string.  Blocks render their sub-expressions
//! indented inside a `{ ... }` wrapper, one expression per line.

use vstd::prelude::*;
use vstd::string::StrSliceExecFns;
use vstd::string::StringExecFns;

use crate::algebra::ParseST;
use crate::algebra::ST;
use crate::algebra::Sub;

verus! {

/// The digit character of a value below ten.
pub open spec fn spec_digit(d: int) -> char {
    if d == 0 {
        '0'
    } else if d == 1 {
        '1'
    } else if d == 2 {
        '2'
    } else if d == 3 {
        '3'
    } else if d == 4 {
        '4'
    } else if d == 5 {
        '5'
    } else if d == 6 {
        '6'
    } else if d == 7 {
        '7'
    } else if d == 8 {
        '8'
    } else {
        '9'
    }
}

/// The decimal digits of a non-negative value, most significant first.
pub open spec fn spec_digits(n: nat) -> Seq<char>
    decreases n,
{
    if n < 10 {
        seq![spec_digit(n as int)]
    } else {
        spec_digits(n / 10) + seq![spec_digit((n % 10) as int)]
    }
}

/// The decimal rendering of an integer: a minus sign for negative values,
/// then the digits of the magnitude.
pub open spec fn spec_int_text(n: int) -> Seq<char> {
    if n < 0 {
        seq!['-'] + spec_digits((-n) as nat)
    } else {
        spec_digits(n as nat)
    }
}

/// A text with four spaces inserted after every newline (the body of an
/// indented rendering; the leading indent and trailing newline are added by
/// `indent_text`).
pub open spec fn indent_rest(s: Seq<char>) -> Seq<char>
    decreases s.len(),
{
    if s.len() == 0 {
        Seq::empty()
    } else if s[0] == '\n' {
        seq!['\n', ' ', ' ', ' ', ' '] + indent_rest(s.skip(1))
    } else {
        seq![s[0]] + indent_rest(s.skip(1))
    }
}

/// One expression's rendering inside a block: every line of it indented by
/// four spaces, closed by a newline.
pub open spec fn indent_text(s: Seq<char>) -> Seq<char> {
    seq![' ', ' ', ' ', ' '] + indent_rest(s) + seq!['\n']
}

/// The renderings of all of a block's sub-expressions, in order.
pub open spec fn indented_all(exprs: Seq<Seq<char>>) -> Seq<char>
    decreases exprs.len(),
{
    if exprs.len() == 0 {
        Seq::empty()
    } else {
        indented_all(exprs.drop_last()) + indent_text(exprs.last())
    }
}

/// Inserting indents distributes over concatenation.
proof fn lemma_indent_rest_concat(a: Seq<char>, b: Seq<char>)
    ensures
        indent_rest(a + b) == indent_rest(a) + indent_rest(b),
    decreases a.len(),
{
    if a.len() == 0 {
        assert(a + b =~= b);
        assert(indent_rest(a) + indent_rest(b) =~= indent_rest(b));
    } else {
        assert((a + b)[0] == a[0]);
        assert((a + b).skip(1) =~= a.skip(1) + b);
        lemma_indent_rest_concat(a.skip(1), b);
        if a[0] == '\n' {
            assert(seq!['\n', ' ', ' ', ' ', ' '] + (indent_rest(a.skip(1)) + indent_rest(b))
                =~= (seq!['\n', ' ', ' ', ' ', ' '] + indent_rest(a.skip(1))) + indent_rest(b));
        } else {
            assert(seq![a[0]] + (indent_rest(a.skip(1)) + indent_rest(b)) =~= (seq![a[0]]
                + indent_rest(a.skip(1))) + indent_rest(b));
        }
    }
}

/// A text without newlines is unchanged by indent insertion.
proof fn lemma_indent_rest_plain(s: Seq<char>)
    requires
        forall|i: int| 0 <= i < s.len() ==> s[i] != '\n',
    ensures
        indent_rest(s) == s,
    decreases s.len(),
{
    if s.len() > 0 {
        lemma_indent_rest_plain(s.skip(1));
        assert(seq![s[0]] + s.skip(1) =~= s);
    }
}

/// The digit character of a value below ten, as a text.
fn digit_str(d: u128) -> (r: &'static str)
    requires
        d < 10,
    ensures
        r@ == seq![spec_digit(d as int)],
{
    let r: &'static str = if d == 0 {
        "0"
    } else if d == 1 {
        "1"
    } else if d == 2 {
        "2"
    } else if d == 3 {
        "3"
    } else if d == 4 {
        "4"
    } else if d == 5 {
        "5"
    } else if d == 6 {
        "6"
    } else if d == 7 {
        "7"
    } else if d == 8 {
        "8"
    } else {
        "9"
    };
    proof {
        reveal_strlit("0");
        reveal_strlit("1");
        reveal_strlit("2");
        reveal_strlit("3");
        reveal_strlit("4");
        reveal_strlit("5");
        reveal_strlit("6");
        reveal_strlit("7");
        reveal_strlit("8");
        reveal_strlit("9");
        assert(r@ =~= seq![spec_digit(d as int)]);
    }
    r
}

/// Append the decimal digits of a non-negative value.
fn push_digits(out: &mut String, n: u128)
    ensures
        final(out)@ == old(out)@ + spec_digits(n as nat),
    decreases n,
{
    if n >= 10 {
        push_digits(out, n / 10);
    }
    out.append(digit_str(n % 10));
    proof {
        if n < 10 {
            assert(old(out)@ + seq![spec_digit(n as int)] =~= old(out)@ + spec_digits(n as nat));
        } else {
            assert(old(out)@ + spec_digits(n as nat / 10) + seq![spec_digit((n as nat % 10) as int)]
                =~= old(out)@ + spec_digits(n as nat));
        }
    }
}

/// The decimal rendering of a machine integer.
fn int_text(num: isize) -> (r: String)
    ensures
        r@ == spec_int_text(num as int),
{
    let mut out = String::new();
    if num < 0 {
        out.append("-");
        let magnitude: u128 = (-(num as i128)) as u128;
        push_digits(&mut out, magnitude);
        proof {
            reveal_strlit("-");
            assert(out@ =~= seq!['-'] + spec_digits((-(num as int)) as nat));
        }
    } else {
        push_digits(&mut out, num as u128);
        proof {
            assert(out@ =~= spec_digits(num as nat));
        }
    }
    out
}

/// Append one expression's rendering as it appears inside a block: a
/// four-space indent, the text with every newline followed by four more
/// spaces, and a closing newline.
#[verifier::loop_isolation(false)]
fn push_indented(out: &mut String, s: &str)
    ensures
        final(out)@ == old(out)@ + indent_text(s@),
{
    out.append("    ");
    proof {
        reveal_strlit("    ");
        assert("    "@ =~= seq![' ', ' ', ' ', ' ']);
        assert(indent_rest(s@.take(0)) =~= Seq::empty());
        assert(out@ =~= old(out)@ + seq![' ', ' ', ' ', ' '] + indent_rest(s@.take(0)));
    }
    let n = s.unicode_len();
    let mut start: usize = 0;
    let mut j: usize = 0;
    while j < n
        invariant
            start <= j <= n,
            out@ == old(out)@ + seq![' ', ' ', ' ', ' '] + indent_rest(s@.take(start as int)),
            forall|t: int| start <= t < j ==> s@[t] != '\n',
        decreases n - j,
    {
        let c = s.get_char(j);
        if c == '\n' {
            let chunk = s.substring_char(start, j + 1);
            out.append(chunk);
            out.append("    ");
            proof {
                reveal_strlit("    ");
                let plain = s@.subrange(start as int, j as int);
                lemma_indent_rest_plain(plain);
                lemma_indent_rest_concat(plain, seq!['\n']);
                assert(seq!['\n'].skip(1) =~= Seq::<char>::empty());
                assert(indent_rest(Seq::<char>::empty()) =~= Seq::<char>::empty());
                assert(indent_rest(seq!['\n']) =~= seq!['\n', ' ', ' ', ' ', ' ']);
                assert(plain + seq!['\n'] =~= s@.subrange(start as int, j + 1));
                lemma_indent_rest_concat(s@.take(start as int), plain + seq!['\n']);
                assert(s@.take(start as int) + (plain + seq!['\n']) =~= s@.take(j + 1));
                assert(out@ =~= old(out)@ + seq![' ', ' ', ' ', ' '] + indent_rest(
                    s@.take(j + 1),
                ));
            }
            start = j + 1;
        }
        j = j + 1;
    }
    let tail = s.substring_char(start, n);
    out.append(tail);
    out.append("\n");
    proof {
        reveal_strlit("\n");
        let plain = s@.subrange(start as int, n as int);
        lemma_indent_rest_plain(plain);
        lemma_indent_rest_concat(s@.take(start as int), plain);
        assert(s@.take(start as int) + plain =~= s@);
        assert("\n"@ =~= seq!['\n']);
        assert(out@ =~= old(out)@ + indent_text(s@));
    }
}

/// An expression rendered as source text.
pub struct Source(pub String);

impl DeepView for Source {
    type V = Seq<char>;

    open spec fn deep_view(&self) -> Seq<char> {
        self.0@
    }
}

impl Source {
    /// The rendered text.
    pub fn as_text(&self) -> (r: &str)
        ensures
            r@ == self.deep_view(),
    {
        self.0.as_str()
    }
}

impl ST for Source {
    open spec fn lit_spec(num: isize) -> Seq<char> {
        spec_int_text(num as int)
    }

    open spec fn neg_spec(num: Seq<char>) -> Seq<char> {
        seq!['-'] + num
    }

    open spec fn add_spec(left: Seq<char>, right: Seq<char>) -> Seq<char> {
        seq!['('] + left + seq![' ', '+', ' '] + right + seq![')']
    }

    open spec fn get_spec(var: Seq<char>) -> Seq<char> {
        var
    }

    open spec fn set_spec(var: Seq<char>, val: Seq<char>) -> Seq<char> {
        seq!['('] + var + seq![' ', '=', ' '] + val + seq![')']
    }

    open spec fn block_spec(exprs: Seq<Seq<char>>) -> Seq<char> {
        seq!['{', '\n'] + indented_all(exprs) + seq!['}']
    }

    fn lit(num: isize) -> (r: Self) {
        Source(int_text(num))
    }

    fn neg(num: Self) -> (r: Self) {
        let mut out = String::from_str("-");
        out.append(num.0.as_str());
        proof {
            reveal_strlit("-");
            assert(out@ =~= seq!['-'] + num.0@);
        }
        Source(out)
    }

    fn add(left: Self, right: Self) -> (r: Self) {
        let mut out = String::from_str("(");
        out.append(left.0.as_str());
        out.append(" + ");
        out.append(right.0.as_str());
        out.append(")");
        proof {
            reveal_strlit("(");
            reveal_strlit(" + ");
            reveal_strlit(")");
            assert(out@ =~= seq!['('] + left.0@ + seq![' ', '+', ' '] + right.0@ + seq![')']);
        }
        Source(out)
    }

    fn get(var: String) -> (r: Self) {
        Source(var)
    }

    fn set(var: String, val: Self) -> (r: Self) {
        let mut out = String::from_str("(");
        out.append(var.as_str());
        out.append(" = ");
        out.append(val.0.as_str());
        out.append(")");
        proof {
            reveal_strlit("(");
            reveal_strlit(" = ");
            reveal_strlit(")");
            assert(out@ =~= seq!['('] + var@ + seq![' ', '=', ' '] + val.0@ + seq![')']);
        }
        Source(out)
    }

    #[verifier::loop_isolation(false)]
    fn block(exprs: Vec<Self>) -> (r: Self) {
        let ghost views = exprs.deep_view();
        let mut out = String::from_str("{\n");
        proof {
            reveal_strlit("{\n");
            assert(indented_all(views.take(0)) =~= Seq::empty());
            assert(out@ =~= seq!['{', '\n'] + indented_all(views.take(0)));
        }
        let mut i: usize = 0;
        while i < exprs.len()
            invariant
                i <= exprs@.len(),
                out@ == seq!['{', '\n'] + indented_all(views.take(i as int)),
            decreases exprs@.len() - i,
        {
            push_indented(&mut out, exprs[i].0.as_str());
            proof {
                assert(views[i as int] == exprs@[i as int].deep_view());
                assert(views.take(i + 1).drop_last() =~= views.take(i as int));
                assert(views.take(i + 1).last() == views[i as int]);
                assert(out@ =~= seq!['{', '\n'] + indented_all(views.take(i + 1)));
            }
            i = i + 1;
        }
        out.append("}");
        proof {
            reveal_strlit("}");
            assert(views.take(views.len() as int) =~= views);
            assert(out@ =~= seq!['{', '\n'] + indented_all(views) + seq!['}']);
        }
        Source(out)
    }
}

impl Sub for Source {
    open spec fn sub_spec(left: Seq<char>, right: Seq<char>) -> Seq<char> {
        seq!['('] + left + seq![' ', '-', ' '] + right + seq![')']
    }

    fn sub(left: Self, right: Self) -> (r: Self) {
        let mut out = String::from_str("(");
        out.append(left.0.as_str());
        out.append(" - ");
        out.append(right.0.as_str());
        out.append(")");
        proof {
            reveal_strlit("(");
            reveal_strlit(" - ");
            reveal_strlit(")");
            assert(out@ =~= seq!['('] + left.0@ + seq![' ', '-', ' '] + right.0@ + seq![')']);
        }
        Source(out)
    }
}

impl ParseST for Source {

}

} // verus!
