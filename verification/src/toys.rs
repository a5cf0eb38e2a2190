//! The application-layer computation behind the transport: from a plaintext
//! line of the form `"<count>x <name>,<count>x <name>,..."`, pick the entry
//! with the maximum count and format it as `"<count>x <name>\n"`.
//!
//! A count is the text before the first `x` of its comma-separated piece,
//! trimmed of white space, parsed as a 32-bit unsigned number (an optional
//! leading plus sign is accepted); the name is the trimmed text after that
//! `x`. When counts tie, the later entry wins. Any malformed piece makes the
//! whole line invalid.

use vstd::prelude::*;

verus! {

/// A character with the Unicode white-space property, as trimming removes.
pub open spec fn is_space(c: char) -> bool {
    let u = c as u32;
    (9 <= u && u <= 13) || u == 32 || u == 0x85 || u == 0xa0 || u == 0x1680 || (0x2000 <= u && u
        <= 0x200a) || u == 0x2028 || u == 0x2029 || u == 0x202f || u == 0x205f || u == 0x3000
}

/// A decimal digit character.
pub open spec fn is_digit(c: char) -> bool {
    48 <= c as u32 && c as u32 <= 57
}

/// The value of a digit character; other characters count as zero.
pub open spec fn digit_val(c: char) -> nat {
    if is_digit(c) {
        (c as u32 - 48) as nat
    } else {
        0
    }
}

/// The index of the first occurrence of `c` in `s[from..to]`, or `to` when
/// there is none.
pub open spec fn find_in(s: Seq<char>, c: char, from: int, to: int) -> int
    decreases to - from,
{
    if from >= to {
        to
    } else if s[from] == c {
        from
    } else {
        find_in(s, c, from + 1, to)
    }
}

/// The first index in `s[from..to]` that does not hold white space, or `to`.
pub open spec fn skip_spaces(s: Seq<char>, from: int, to: int) -> int
    decreases to - from,
{
    if from >= to {
        to
    } else if is_space(s[from]) {
        skip_spaces(s, from + 1, to)
    } else {
        from
    }
}

/// One past the last index in `s[from..to]` that does not hold white space,
/// or `from`.
pub open spec fn rskip_spaces(s: Seq<char>, from: int, to: int) -> int
    decreases to - from,
{
    if to <= from {
        from
    } else if is_space(s[to - 1]) {
        rskip_spaces(s, from, to - 1)
    } else {
        to
    }
}

/// The numeric value of the digit run `s[from..to]`, most significant first.
pub open spec fn digits_val(s: Seq<char>, from: int, to: int) -> nat
    decreases to - from,
{
    if to <= from {
        0
    } else {
        digits_val(s, from, to - 1) * 10 + digit_val(s[to - 1])
    }
}

/// `s[from..to]` parses as a 32-bit count: an optional leading plus sign,
/// then at least one digit, the value within range.
pub open spec fn number_valid(s: Seq<char>, from: int, to: int) -> bool {
    let d = if from < to && s[from] == '+' {
        from + 1
    } else {
        from
    };
    d < to && (forall|i: int| d <= i < to ==> is_digit(s[i])) && digits_val(s, d, to) <= u32::MAX
}

/// The count that `s[from..to]` parses to.
pub open spec fn number_val(s: Seq<char>, from: int, to: int) -> nat {
    let d = if from < to && s[from] == '+' {
        from + 1
    } else {
        from
    };
    digits_val(s, d, to)
}

/// A comma-separated piece is a valid entry: it holds an `x` separator and
/// the trimmed text before the first one parses as a count.
pub open spec fn entry_valid(p: Seq<char>) -> bool {
    let xi = find_in(p, 'x', 0, p.len() as int);
    let lo = skip_spaces(p, 0, xi);
    let hi = rskip_spaces(p, lo, xi);
    xi < p.len() && number_valid(p, lo, hi)
}

/// The count of an entry: the trimmed text before the first `x`, as a number.
pub open spec fn entry_count(p: Seq<char>) -> nat {
    let xi = find_in(p, 'x', 0, p.len() as int);
    let lo = skip_spaces(p, 0, xi);
    let hi = rskip_spaces(p, lo, xi);
    number_val(p, lo, hi)
}

/// The name of an entry: the trimmed text after the first `x`.
pub open spec fn entry_name(p: Seq<char>) -> Seq<char> {
    let xi = find_in(p, 'x', 0, p.len() as int);
    let nlo = skip_spaces(p, xi + 1, p.len() as int);
    let nhi = rskip_spaces(p, nlo, p.len() as int);
    p.subrange(nlo, nhi)
}

/// The search for a character stays within its window.
proof fn lemma_find_in_bounds(s: Seq<char>, c: char, from: int, to: int)
    requires
        from <= to,
    ensures
        from <= find_in(s, c, from, to) <= to,
    decreases to - from,
{
    if from < to && s[from] != c {
        lemma_find_in_bounds(s, c, from + 1, to);
    }
}

/// Every comma-separated piece of `s[st..]` is a valid entry.
pub open spec fn valid_from(s: Seq<char>, st: int) -> bool
    decreases s.len() - st,
    when 0 <= st <= s.len()
    via valid_from_decreases
{
    let e = find_in(s, ',', st, s.len() as int);
    entry_valid(s.subrange(st, e)) && (e < s.len() ==> valid_from(s, e + 1))
}

#[via_fn]
proof fn valid_from_decreases(s: Seq<char>, st: int) {
    lemma_find_in_bounds(s, ',', st, s.len() as int);
}

/// The running maximum over the pieces of `s[st..]`, folded left over an
/// accumulated count and name; a later entry of equal count displaces an
/// earlier one.
pub open spec fn best_from(s: Seq<char>, st: int, count: nat, name: Seq<char>) -> (nat, Seq<char>)
    decreases s.len() - st,
    when 0 <= st <= s.len()
    via best_from_decreases
{
    let e = find_in(s, ',', st, s.len() as int);
    let p = s.subrange(st, e);
    let c2 = if entry_count(p) >= count {
        entry_count(p)
    } else {
        count
    };
    let n2 = if entry_count(p) >= count {
        entry_name(p)
    } else {
        name
    };
    if e >= s.len() {
        (c2, n2)
    } else {
        best_from(s, e + 1, c2, n2)
    }
}

#[via_fn]
proof fn best_from_decreases(s: Seq<char>, st: int, count: nat, name: Seq<char>) {
    lemma_find_in_bounds(s, ',', st, s.len() as int);
}

/// The digit character for a value below ten.
pub open spec fn digit_char(d: nat) -> char {
    if d == 0 {
        '0'
    } else if d == 1 {
        '1'
    } else if d == 2 {
        '2'
    } else if d == 3 {
        '3'
    } else if d == 4 {
        '4'
    } else if d == 5 {
        '5'
    } else if d == 6 {
        '6'
    } else if d == 7 {
        '7'
    } else if d == 8 {
        '8'
    } else {
        '9'
    }
}

/// The decimal digits of `n`, most significant first.
pub open spec fn dec_str(n: nat) -> Seq<char>
    decreases n,
{
    if n < 10 {
        seq![digit_char(n)]
    } else {
        dec_str(n / 10).push(digit_char(n % 10))
    }
}

/// The response line for the winning entry: its count in decimal, `"x "`,
/// its name, and the newline.
pub open spec fn render(count: nat, name: Seq<char>) -> Seq<char> {
    dec_str(count) + seq!['x', ' '] + name + seq!['\n']
}

/// Scan for the first `c` in `s[from..to]`.
fn find_char_from(s: &str, c: char, from: usize, to: usize) -> (r: usize)
    requires
        from <= to <= s@.len(),
    ensures
        r == find_in(s@, c, from as int, to as int),
        from <= r <= to,
{
    let mut i = from;
    while i < to
        invariant
            from <= i <= to,
            to <= s@.len(),
            find_in(s@, c, from as int, to as int) == find_in(s@, c, i as int, to as int),
        decreases to - i,
    {
        if s.get_char(i) == c {
            return i;
        }
        i = i + 1;
    }
    i
}

/// Whether trimming removes this character.
fn is_space_char(c: char) -> (r: bool)
    ensures
        r == is_space(c),
{
    let u = c as u32;
    (9 <= u && u <= 13) || u == 32 || u == 0x85 || u == 0xa0 || u == 0x1680 || (0x2000 <= u && u
        <= 0x200a) || u == 0x2028 || u == 0x2029 || u == 0x202f || u == 0x205f || u == 0x3000
}

/// Scan past leading white space in `s[from..to]`.
fn skip_spaces_exec(s: &str, from: usize, to: usize) -> (r: usize)
    requires
        from <= to <= s@.len(),
    ensures
        r == skip_spaces(s@, from as int, to as int),
        from <= r <= to,
{
    let mut i = from;
    while i < to
        invariant
            from <= i <= to,
            to <= s@.len(),
            skip_spaces(s@, from as int, to as int) == skip_spaces(s@, i as int, to as int),
        decreases to - i,
    {
        if !is_space_char(s.get_char(i)) {
            return i;
        }
        i = i + 1;
    }
    i
}

/// Scan past trailing white space in `s[from..to]`.
fn rskip_spaces_exec(s: &str, from: usize, to: usize) -> (r: usize)
    requires
        from <= to <= s@.len(),
    ensures
        r == rskip_spaces(s@, from as int, to as int),
        from <= r <= to,
{
    let mut i = to;
    while i > from
        invariant
            from <= i <= to,
            to <= s@.len(),
            rskip_spaces(s@, from as int, to as int) == rskip_spaces(s@, from as int, i as int),
        decreases i,
    {
        if !is_space_char(s.get_char(i - 1)) {
            return i;
        }
        i = i - 1;
    }
    i
}

/// A longer digit run never has a smaller value.
proof fn lemma_digits_val_mono(s: Seq<char>, from: int, i: int, to: int)
    requires
        from <= i <= to,
    ensures
        digits_val(s, from, to) >= digits_val(s, from, i),
    decreases to - i,
{
    if i < to {
        lemma_digits_val_mono(s, from, i, to - 1);
    }
}

/// Parse `s[from..to]` as a 32-bit count: an optional leading plus sign,
/// then at least one digit, rejecting any other character and any value out
/// of range.
fn parse_u32(s: &str, from: usize, to: usize) -> (r: Option<u32>)
    requires
        from <= to <= s@.len(),
    ensures
        r is Some <==> number_valid(s@, from as int, to as int),
        r matches Some(c) ==> c as nat == number_val(s@, from as int, to as int),
{
    let mut i = from;
    if i < to && s.get_char(i) == '+' {
        i = i + 1;
    }
    let ghost d0 = i as int;
    if i == to {
        return None;
    }
    let mut val: u32 = 0;
    while i < to
        invariant
            d0 <= i as int <= to,
            to <= s@.len(),
            d0 == if from < to && s@[from as int] == '+' {
                from as int + 1
            } else {
                from as int
            },
            forall|j: int| d0 <= j < i as int ==> is_digit(s@[j]),
            val as nat == digits_val(s@, d0, i as int),
        decreases to - i,
    {
        let c = s.get_char(i);
        let u = c as u32;
        if u < 48 || u > 57 {
            return None;
        }
        let next: u64 = (val as u64) * 10 + ((u - 48) as u64);
        if next > 0xffff_ffff {
            proof {
                lemma_digits_val_mono(s@, d0, i as int + 1, to as int);
            }
            return None;
        }
        val = next as u32;
        i = i + 1;
    }
    Some(val)
}

/// Parse one comma-separated piece: the count before its first `x`, and the
/// bounds of the trimmed name after it.
fn parse_entry(p: &str) -> (r: Option<(u32, usize, usize)>)
    ensures
        r is Some <==> entry_valid(p@),
        r matches Some(t) ==> t.0 as nat == entry_count(p@) && t.1 <= t.2 <= p@.len()
            && p@.subrange(t.1 as int, t.2 as int) == entry_name(p@),
{
    let n = p.unicode_len();
    let xi = find_char_from(p, 'x', 0, n);
    if xi == n {
        return None;
    }
    let lo = skip_spaces_exec(p, 0, xi);
    let hi = rskip_spaces_exec(p, lo, xi);
    match parse_u32(p, lo, hi) {
        None => None,
        Some(c) => {
            let nlo = skip_spaces_exec(p, xi + 1, n);
            let nhi = rskip_spaces_exec(p, nlo, n);
            Some((c, nlo, nhi))
        }
    }
}

/// The error line for any malformed input.
fn error_string() -> (r: String)
    ensures
        r@ == "Invalid input string"@,
{
    String::from_str("Invalid input string")
}

/// The one-character string for a digit value below ten.
fn digit_str_of(d: u32) -> (r: &'static str)
    requires
        d < 10,
    ensures
        r@ == seq![digit_char(d as nat)],
{
    if d == 0 {
        proof {
            reveal_strlit("0");
        }
        "0"
    } else if d == 1 {
        proof {
            reveal_strlit("1");
        }
        "1"
    } else if d == 2 {
        proof {
            reveal_strlit("2");
        }
        "2"
    } else if d == 3 {
        proof {
            reveal_strlit("3");
        }
        "3"
    } else if d == 4 {
        proof {
            reveal_strlit("4");
        }
        "4"
    } else if d == 5 {
        proof {
            reveal_strlit("5");
        }
        "5"
    } else if d == 6 {
        proof {
            reveal_strlit("6");
        }
        "6"
    } else if d == 7 {
        proof {
            reveal_strlit("7");
        }
        "7"
    } else if d == 8 {
        proof {
            reveal_strlit("8");
        }
        "8"
    } else {
        proof {
            reveal_strlit("9");
        }
        "9"
    }
}

/// Append the decimal digits of `n` to `out`, most significant first.
fn push_dec(out: &mut String, n: u32)
    ensures
        final(out)@ == old(out)@ + dec_str(n as nat),
    decreases n,
{
    if n < 10 {
        out.append(digit_str_of(n));
        proof {
            assert(out@ =~= old(out)@ + dec_str(n as nat));
        }
    } else {
        push_dec(out, n / 10);
        out.append(digit_str_of(n % 10));
        proof {
            assert(out@ =~= old(out)@ + dec_str(n as nat));
        }
    }
}

/// From a line `"<count>x <name>,<count>x <name>,..."`, the entry with the
/// maximum count — the later one when counts tie — formatted identically and
/// newline-terminated; the error line when any piece is malformed.
pub fn get_most_toys(toys: String) -> (r: Result<String, String>)
    ensures
        valid_from(toys@, 0) <==> r is Ok,
        r matches Ok(out) ==> out@ == render(
            best_from(toys@, 0, 0, Seq::empty()).0,
            best_from(toys@, 0, 0, Seq::empty()).1,
        ),
        r matches Err(e) ==> e@ == "Invalid input string"@,
{
    let s = toys.as_str();
    let n = s.unicode_len();
    let mut st: usize = 0;
    let mut best_count: u32 = 0;
    let mut best_name: &str = "";
    let mut done = false;
    proof {
        reveal_strlit("");
        assert(""@ =~= Seq::<char>::empty());
    }
    while !done
        invariant
            n == s@.len(),
            s@ == toys@,
            st <= n,
            !done ==> (valid_from(toys@, 0) <==> valid_from(toys@, st as int)),
            !done ==> best_from(toys@, 0, 0, Seq::empty()) == best_from(
                toys@,
                st as int,
                best_count as nat,
                best_name@,
            ),
            done ==> valid_from(toys@, 0),
            done ==> best_from(toys@, 0, 0, Seq::empty()) == (best_count as nat, best_name@),
        decreases n + (if done { 0int } else { 1int }) - st,
    {
        let e = find_char_from(s, ',', st, n);
        let p = s.substring_char(st, e);
        match parse_entry(p) {
            None => {
                return Err(error_string());
            }
            Some(t) => {
                let (c, nlo, nhi) = t;
                if c >= best_count {
                    best_count = c;
                    best_name = p.substring_char(nlo, nhi);
                }
                if e == n {
                    done = true;
                } else {
                    st = e + 1;
                }
            }
        }
    }
    let mut out = String::new();
    push_dec(&mut out, best_count);
    out.append("x ");
    out.append(best_name);
    out.append("\n");
    proof {
        reveal_strlit("x ");
        reveal_strlit("\n");
        assert(("x ")@ =~= seq!['x', ' ']);
        assert(("\n")@ =~= seq!['\n']);
        assert(out@ =~= render(best_count as nat, best_name@));
    }
    Ok(out)
}

} // verus!
