//! The structured parse error: an optional 1-based line number, an optional
//! source identifier a caller may attach after the fact, and a message.

use vstd::prelude::*;

verus! {

/// The decimal digit character for `d`.
pub open spec fn digit_char(d: int) -> char {
    if d == 0 {
        '0'
    } else if d == 1 {
        '1'
    } else if d == 2 {
        '2'
    } else if d == 3 {
        '3'
    } else if d == 4 {
        '4'
    } else if d == 5 {
        '5'
    } else if d == 6 {
        '6'
    } else if d == 7 {
        '7'
    } else if d == 8 {
        '8'
    } else {
        '9'
    }
}

/// The decimal numeral of `n`, most significant digit first, without
/// leading zeros (a lone zero for 0).
pub open spec fn dec_seq(n: nat) -> Seq<char>
    decreases n,
{
    if n < 10 {
        seq![digit_char(n as int)]
    } else {
        dec_seq(n / 10).push(digit_char((n % 10) as int))
    }
}

/// Appends the digit character of `d` to `s`.
fn push_digit(s: &mut String, d: usize)
    requires
        d < 10,
    ensures
        final(s)@ == old(s)@ + seq![digit_char(d as int)],
{
    let t: &str = if d == 0 {
        "0"
    } else if d == 1 {
        "1"
    } else if d == 2 {
        "2"
    } else if d == 3 {
        "3"
    } else if d == 4 {
        "4"
    } else if d == 5 {
        "5"
    } else if d == 6 {
        "6"
    } else if d == 7 {
        "7"
    } else if d == 8 {
        "8"
    } else {
        "9"
    };
    proof {
        reveal_strlit("0");
        reveal_strlit("1");
        reveal_strlit("2");
        reveal_strlit("3");
        reveal_strlit("4");
        reveal_strlit("5");
        reveal_strlit("6");
        reveal_strlit("7");
        reveal_strlit("8");
        reveal_strlit("9");
        assert(t@ =~= seq![digit_char(d as int)]);
    }
    s.append(t);
}

/// Appends the decimal numeral of `n` to `s`.
fn push_decimal(s: &mut String, n: usize)
    ensures
        final(s)@ == old(s)@ + dec_seq(n as nat),
    decreases n,
{
    if n >= 10 {
        proof {
            assert(n / 10 < n) by (nonlinear_arith)
                requires
                    n >= 10,
            ;
        }
        push_decimal(s, n / 10);
        push_digit(s, n % 10);
        proof {
            assert(old(s)@ + dec_seq((n / 10) as nat) + seq![digit_char((n % 10) as int)]
                =~= old(s)@ + dec_seq(n as nat));
        }
    } else {
        push_digit(s, n);
    }
}

/// The error a parse can end in.  `line_number` is absent when the failure
/// is not tied to a line (an upstream failure to obtain lines at all);
/// `filename` is absent until a caller attaches a source identifier.
#[derive(Debug, Clone)]
pub struct Error {
    pub line_number: Option<usize>,
    pub filename: Option<String>,
    pub error_message: String,
}

/// The rendered form of an error: the message, then the source identifier
/// if one was attached, then the line number in parentheses if one exists.
pub open spec fn render_spec(e: Error) -> Seq<char> {
    let head = "multitext Error : "@ + e.error_message@ + " : "@;
    let fname = match e.filename {
        Some(f) => f@,
        None => Seq::<char>::empty(),
    };
    match e.line_number {
        Some(n) => head + fname + "("@ + dec_seq(n as nat) + ")"@,
        None => head + fname,
    }
}

impl Error {
    /// An error that wraps an upstream failure to obtain the line
    /// sequence: it carries no line number and no source identifier.
    pub fn upstream(message: String) -> (e: Error)
        ensures
            e.line_number is None,
            e.filename is None,
            e.error_message == message,
    {
        Error { line_number: None, filename: None, error_message: message }
    }

    /// Attaches a source identifier, leaving line number and message
    /// untouched.
    pub fn set_filename(&mut self, filename: String)
        ensures
            final(self).line_number == old(self).line_number,
            final(self).error_message == old(self).error_message,
            final(self).filename == Some(filename),
    {
        self.filename = Some(filename);
    }

    /// Renders the error as one line of text, as [`render_spec`] states.
    pub fn render(&self) -> (r: String)
        ensures
            r@ == render_spec(*self),
    {
        let mut s = String::from_str("multitext Error : ");
        s.append(self.error_message.as_str());
        s.append(" : ");
        match &self.filename {
            Some(f) => s.append(f.as_str()),
            None => (),
        }
        match self.line_number {
            Some(n) => {
                s.append("(");
                push_decimal(&mut s, n);
                s.append(")");
            },
            None => (),
        }
        proof {
            assert(s@ =~= render_spec(*self));
        }
        s
    }
}

} // verus!
