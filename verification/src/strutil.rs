//! Small verified string helpers shared by the rest of the library:
//! character-wise string equality, step-name normalization, and decimal
//! rendering of exit codes.

use vstd::prelude::*;

verus! {

/// Appends one character to a `String`.
///
/// Relies on `String::push`, which appends the given `char` to the end of
/// the string.
#[verifier::external_body]
pub fn push_char(s: &mut String, c: char)
    ensures
        final(s)@ == old(s)@ + seq![c],
{
    s.push(c);
}

/// Character-wise equality of two string slices.
pub fn str_eq(a: &str, b: &str) -> (r: bool)
    ensures
        r == (a@ == b@),
{
    let na = a.unicode_len();
    let nb = b.unicode_len();
    if na != nb {
        return false;
    }
    let mut i: usize = 0;
    while i < na
        invariant
            na == a@.len(),
            na == b@.len(),
            i <= na,
            forall|j: int| 0 <= j < i ==> a@[j] == b@[j],
        decreases na - i,
    {
        if a.get_char(i) != b.get_char(i) {
            return false;
        }
        i = i + 1;
    }
    proof {
        assert(a@ =~= b@);
    }
    true
}

/// How one character of a step name is folded when the name becomes a key
/// in the command-result namespace: a space becomes an underscore and an
/// ASCII capital letter becomes its lower-case form.
pub open spec fn norm_char(c: char) -> char {
    if c == ' ' {
        '_'
    } else if 'A' <= c && c <= 'Z' {
        (((c as u32) + 32) as char)
    } else {
        c
    }
}

/// The normalized form of a step name: every character folded by
/// [`norm_char`].
pub open spec fn normalize(s: Seq<char>) -> Seq<char> {
    s.map_values(|c: char| norm_char(c))
}

/// Folding a character twice is the same as folding it once.
pub proof fn lemma_norm_char_idempotent(c: char)
    ensures
        norm_char(norm_char(c)) == norm_char(c),
{
}

/// Law: normalization is idempotent, so a key that is already in normalized
/// form is stored under itself.
pub proof fn lemma_normalize_idempotent(s: Seq<char>)
    ensures
        normalize(normalize(s)) == normalize(s),
{
    assert forall|i: int| 0 <= i < s.len() implies norm_char(norm_char(s[i])) == norm_char(
        s[i],
    ) by {
        lemma_norm_char_idempotent(s[i]);
    }
    assert(normalize(normalize(s)) =~= normalize(s));
}

/// Executable form of [`norm_char`].
pub fn normalize_char(c: char) -> (r: char)
    ensures
        r == norm_char(c),
{
    if c == ' ' {
        '_'
    } else if 'A' <= c && c <= 'Z' {
        (((c as u8) + 32) as char)
    } else {
        c
    }
}

/// Normalizes a step name: spaces become underscores and ASCII capitals
/// become lower case, so `"Get Version"` is stored as `"get_version"`.
pub fn normalize_name(s: &str) -> (r: String)
    ensures
        r@ == normalize(s@),
{
    let n = s.unicode_len();
    let mut out = String::new();
    let mut i: usize = 0;
    while i < n
        invariant
            n == s@.len(),
            i <= n,
            out@ == normalize(s@.subrange(0, i as int)),
        decreases n - i,
    {
        let c = normalize_char(s.get_char(i));
        push_char(&mut out, c);
        proof {
            assert(normalize(s@.subrange(0, i + 1)) =~= normalize(s@.subrange(0, i as int))
                + seq![norm_char(s@[i as int])]);
        }
        i = i + 1;
    }
    proof {
        assert(s@.subrange(0, n as int) =~= s@);
    }
    out
}

/// The character of one decimal digit.
pub open spec fn digit_char(d: int) -> char {
    (((d + 48) as u32) as char)
}

/// The decimal digits of a natural number, most significant first.
pub open spec fn dec_nat(n: nat) -> Seq<char>
    decreases n,
{
    if n < 10 {
        seq![digit_char(n as int)]
    } else {
        dec_nat(n / 10) + seq![digit_char((n % 10) as int)]
    }
}

/// The decimal rendering of an integer, with a leading minus sign when it
/// is negative.
pub open spec fn dec_int(n: int) -> Seq<char> {
    if n < 0 {
        seq!['-'] + dec_nat((-n) as nat)
    } else {
        dec_nat(n as nat)
    }
}

/// Appends the decimal digits of `m` to `out`.
fn push_dec_nat(out: &mut String, m: u32)
    ensures
        final(out)@ == old(out)@ + dec_nat(m as nat),
    decreases m,
{
    if m >= 10 {
        push_dec_nat(out, m / 10);
    }
    let d: u32 = m % 10;
    push_char(out, (((d as u8) + 48) as char));
    proof {
        assert((((d as u8) + 48) as char) == digit_char(d as int));
        if m >= 10 {
            assert(old(out)@ + dec_nat((m / 10) as nat) + seq![digit_char((m % 10) as int)]
                =~= old(out)@ + dec_nat(m as nat));
        } else {
            assert(old(out)@ + seq![digit_char(m as int)] =~= old(out)@ + dec_nat(m as nat));
        }
    }
}

/// The decimal rendering of an exit status, used when a template asks for
/// a recorded step's `.status`.
pub fn i32_to_string(v: i32) -> (r: String)
    ensures
        r@ == dec_int(v as int),
{
    let mut out = String::new();
    if v < 0 {
        push_char(&mut out, '-');
        let m: u32 = (-(v as i64)) as u32;
        proof {
            assert(m as nat == (-(v as int)) as nat);
        }
        push_dec_nat(&mut out, m);
        proof {
            assert(Seq::<char>::empty() + seq!['-'] + dec_nat(m as nat) =~= dec_int(v as int));
        }
    } else {
        push_dec_nat(&mut out, v as u32);
        proof {
            assert(Seq::<char>::empty() + dec_nat(v as nat) =~= dec_int(v as int));
        }
    }
    out
}

} // verus!
