use vstd::prelude::*;

verus! {

/// Values with a canonical textual form.
pub trait Render {
    /// The textual form of the value, as a sequence of characters.
    spec fn rendered(&self) -> Seq<char>;

    /// Produces the textual form.
    fn render_value(&self) -> (r: String)
        ensures
            r@ == self.rendered(),
    ;
}

/// The character for a single decimal digit.
pub open spec fn digit_char(d: int) -> char {
    if d == 0 {
        '0'
    } else if d == 1 {
        '1'
    } else if d == 2 {
        '2'
    } else if d == 3 {
        '3'
    } else if d == 4 {
        '4'
    } else if d == 5 {
        '5'
    } else if d == 6 {
        '6'
    } else if d == 7 {
        '7'
    } else if d == 8 {
        '8'
    } else {
        '9'
    }
}

/// The decimal digits of a non-negative number, most significant first.
pub open spec fn dec_digits(n: int) -> Seq<char>
    decreases n,
{
    if n < 10 {
        seq![digit_char(n)]
    } else {
        dec_digits(n / 10).push(digit_char(n % 10))
    }
}

/// The decimal form of an integer: a minus sign before the digits of its
/// magnitude when negative, the plain digits otherwise.
pub open spec fn dec_chars(n: int) -> Seq<char> {
    if n < 0 {
        seq!['-'] + dec_digits(-n)
    } else {
        dec_digits(n)
    }
}

/// Relies on String::push: appends the character to the end of the string.
#[verifier::external_body]
pub(crate) fn push_char(s: &mut String, c: char)
    ensures
        final(s)@ == old(s)@.push(c),
{
    s.push(c)
}

/// Relies on String::push_str: appends the string slice to the end of the
/// string.
#[verifier::external_body]
pub(crate) fn push_str(s: &mut String, t: &str)
    ensures
        final(s)@ == old(s)@ + t@,
{
    s.push_str(t)
}

/// The character for a digit, as executable code.
fn digit_to_char(d: u64) -> (c: char)
    requires
        d < 10,
    ensures
        c == digit_char(d as int),
{
    if d == 0 {
        '0'
    } else if d == 1 {
        '1'
    } else if d == 2 {
        '2'
    } else if d == 3 {
        '3'
    } else if d == 4 {
        '4'
    } else if d == 5 {
        '5'
    } else if d == 6 {
        '6'
    } else if d == 7 {
        '7'
    } else if d == 8 {
        '8'
    } else {
        '9'
    }
}

/// Appends the decimal digits of `n` to `out`, most significant first.
fn push_dec_digits(n: u64, out: &mut String)
    ensures
        final(out)@ == old(out)@ + dec_digits(n as int),
    decreases n,
{
    if n < 10 {
        push_char(out, digit_to_char(n));
        proof {
            assert(out@ =~= old(out)@ + dec_digits(n as int));
        }
    } else {
        push_dec_digits(n / 10, out);
        push_char(out, digit_to_char(n % 10));
        proof {
            assert(out@ =~= old(out)@ + dec_digits(n as int));
        }
    }
}

impl Render for i32 {
    open spec fn rendered(&self) -> Seq<char> {
        dec_chars(*self as int)
    }

    fn render_value(&self) -> (r: String) {
        let mut s = String::new();
        let wide: i64 = *self as i64;
        if wide < 0 {
            push_char(&mut s, '-');
            let mag: u64 = (-wide) as u64;
            push_dec_digits(mag, &mut s);
            proof {
                assert(mag as int == -(*self as int));
                assert(s@ =~= dec_chars(*self as int));
            }
        } else {
            push_dec_digits(wide as u64, &mut s);
            proof {
                assert(s@ =~= dec_chars(*self as int));
            }
        }
        s
    }
}

} // verus!
