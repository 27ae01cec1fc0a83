//! Input handling of the interactive shell: the line editor's key decisions
//! and the parsing of dotted-quad IPv4 addresses.

use vstd::prelude::*;
use vstd::string::StringSliceAdditionalSpecFns;

verus! {

/// ASCII `.`.
pub const DOT: u8 = 0x2e;
/// ASCII `+`.
pub const PLUS: u8 = 0x2b;

/// Whether `b` is an ASCII decimal digit.
pub open spec fn is_digit(b: u8) -> bool {
    0x30 <= b <= 0x39
}

/// The dot-separated fields of `s`, in order (one field when `s` has no dot).
pub open spec fn dot_fields(s: Seq<u8>) -> Seq<Seq<u8>>
    decreases s.len(),
{
    if s.len() == 0 {
        seq![Seq::<u8>::empty()]
    } else {
        let f = dot_fields(s.drop_last());
        if s.last() == DOT {
            f.push(Seq::<u8>::empty())
        } else {
            f.update(f.len() - 1, f.last().push(s.last()))
        }
    }
}

/// The digit part of a decimal field: the field without one leading `+`.
pub open spec fn digit_part(f: Seq<u8>) -> Seq<u8> {
    if f.len() > 0 && f[0] == PLUS {
        f.skip(1)
    } else {
        f
    }
}

/// Whether every byte of `d` is a decimal digit.
pub open spec fn all_digits(d: Seq<u8>) -> bool {
    forall|i: int| 0 <= i < d.len() ==> is_digit(#[trigger] d[i])
}

/// The number that the decimal digits `d` spell.
pub open spec fn decimal_value(d: Seq<u8>) -> nat
    decreases d.len(),
{
    if d.len() == 0 {
        0
    } else {
        decimal_value(d.drop_last()) * 10 + (d.last() - 0x30) as nat
    }
}

/// A field read as an unsigned byte the way Rust's `u8` parser reads it: an
/// optional `+`, then at least one decimal digit, with a value below 256.
pub open spec fn parse_u8_spec(f: Seq<u8>) -> Option<u8> {
    let d = digit_part(f);
    if d.len() > 0 && all_digits(d) && decimal_value(d) <= 255 {
        Some(decimal_value(d) as u8)
    } else {
        None
    }
}

/// The address that dotted-quad text `s` (as UTF-8 bytes) denotes: exactly
/// four dot-separated fields, each a byte.
pub open spec fn parse_ip_spec(s: Seq<u8>) -> Option<[u8; 4]> {
    let fs = dot_fields(s);
    if fs.len() == 4 && parse_u8_spec(fs[0]) is Some && parse_u8_spec(fs[1]) is Some
        && parse_u8_spec(fs[2]) is Some && parse_u8_spec(fs[3]) is Some {
        Some(
            [
                parse_u8_spec(fs[0]).unwrap(),
                parse_u8_spec(fs[1]).unwrap(),
                parse_u8_spec(fs[2]).unwrap(),
                parse_u8_spec(fs[3]).unwrap(),
            ],
        )
    } else {
        None
    }
}

proof fn lemma_all_digits_push(d: Seq<u8>, b: u8)
    ensures
        all_digits(d.push(b)) == (all_digits(d) && is_digit(b)),
{
    if all_digits(d.push(b)) {
        assert forall|i: int| 0 <= i < d.len() implies is_digit(#[trigger] d[i]) by {
            assert(d.push(b)[i] == d[i]);
        }
        assert(d.push(b)[d.len() as int] == b);
    }
}

proof fn lemma_dot_fields_nonempty(s: Seq<u8>)
    ensures
        dot_fields(s).len() >= 1,
    decreases s.len(),
{
    if s.len() > 0 {
        lemma_dot_fields_nonempty(s.drop_last());
    }
}

/// Fields completed in a prefix stay as they are in the whole text, which has
/// at least as many fields.
proof fn lemma_dot_fields_prefix(s: Seq<u8>, i: int)
    requires
        0 <= i <= s.len(),
    ensures
        dot_fields(s.take(i)).len() <= dot_fields(s).len(),
        forall|j: int|
            0 <= j < dot_fields(s.take(i)).len() - 1 ==> #[trigger] dot_fields(s)[j] == dot_fields(
                s.take(i),
            )[j],
    decreases s.len(),
{
    if i == s.len() {
        assert(s.take(i) =~= s);
    } else {
        lemma_dot_fields_prefix(s.drop_last(), i);
        assert(s.drop_last().take(i) =~= s.take(i));
        lemma_dot_fields_nonempty(s.drop_last());
    }
}

/// Parse dotted-quad text such as `10.0.2.2` into an address; `None` unless
/// the text is exactly four dot-separated fields, each an optional `+` and
/// decimal digits denoting a value below 256.
pub fn parse_ip(text: &str) -> (r: Option<[u8; 4]>)
    ensures
        r == parse_ip_spec(text.spec_bytes()),
{
    let s = text.as_bytes();
    let ghost sb = s@;
    let mut vals: [u8; 4] = [0u8; 4];
    let mut k: usize = 0;
    let mut cur_len: usize = 0;
    let mut cur_plus = false;
    let mut cur_ok = true;
    let mut cur_val: u32 = 0;
    let mut i: usize = 0;
    assert(sb.take(0) =~= Seq::<u8>::empty());
    while i < s.len()
        invariant
            sb == s@,
            sb == text.spec_bytes(),
            i <= s.len(),
            k <= 3,
            dot_fields(sb.take(i as int)).len() == k + 1,
            forall|j: int|
                0 <= j < k ==> parse_u8_spec(#[trigger] dot_fields(sb.take(i as int))[j]) == Some(
                    vals[j],
                ),
            cur_len == dot_fields(sb.take(i as int))[k as int].len(),
            cur_plus == (cur_len > 0 && dot_fields(sb.take(i as int))[k as int][0] == PLUS),
            cur_ok == all_digits(digit_part(dot_fields(sb.take(i as int))[k as int])),
            cur_ok ==> cur_val == if decimal_value(
                digit_part(dot_fields(sb.take(i as int))[k as int]),
            ) < 256 {
                decimal_value(digit_part(dot_fields(sb.take(i as int))[k as int]))
            } else {
                256
            },
            cur_val <= 256,
            cur_len <= i,
        decreases s.len() - i,
    {
        let b = s[i];
        let ghost fs = dot_fields(sb.take(i as int));
        let ghost f = fs[k as int];
        assert(sb.take(i + 1).drop_last() =~= sb.take(i as int));
        if b == DOT {
            let digits = if cur_plus {
                cur_len - 1
            } else {
                cur_len
            };
            if digits == 0 || !cur_ok || cur_val > 255 {
                proof {
                    lemma_dot_fields_prefix(sb, i + 1);
                    assert(dot_fields(sb)[k as int] == f);
                    assert(digit_part(f).len() == digits);
                    assert(parse_u8_spec(dot_fields(sb)[k as int]) is None);
                }
                return None;
            }
            vals[k] = cur_val as u8;
            if k == 3 {
                proof {
                    assert(sb.take(i + 1).last() == DOT);
                    assert(dot_fields(sb.take(i + 1)) == fs.push(Seq::<u8>::empty()));
                    assert(dot_fields(sb.take(i + 1)).len() == 5);
                    lemma_dot_fields_prefix(sb, i + 1);
                }
                return None;
            }
            k = k + 1;
            cur_len = 0;
            cur_plus = false;
            cur_ok = true;
            cur_val = 0;
            assert(digit_part(Seq::<u8>::empty()) =~= Seq::<u8>::empty());
        } else {
            let ghost f2 = f.push(b);
            if cur_len == 0 && b == PLUS {
                cur_plus = true;
                assert(digit_part(f2) =~= Seq::<u8>::empty());
            } else {
                assert(digit_part(f2) =~= digit_part(f).push(b));
                assert(digit_part(f2).drop_last() =~= digit_part(f));
                proof {
                    lemma_all_digits_push(digit_part(f), b);
                }
                if 0x30 <= b && b <= 0x39 {
                    if cur_val < 256 {
                        let v = cur_val * 10 + (b - 0x30) as u32;
                        cur_val = if v < 256 {
                            v
                        } else {
                            256
                        };
                    }
                } else {
                    cur_ok = false;
                }
            }
            cur_len = cur_len + 1;
        }
        i = i + 1;
    }
    assert(sb.take(i as int) =~= sb);
    let digits = if cur_plus {
        cur_len - 1
    } else {
        cur_len
    };
    if k != 3 || digits == 0 || !cur_ok || cur_val > 255 {
        return None;
    }
    vals[3] = cur_val as u8;
    Some(vals)
}


/// The decimal text of `n`, without leading zeros, as `{}` prints it.
pub open spec fn decimal_text(n: nat) -> Seq<u8>
    decreases n,
{
    if n < 10 {
        seq![(0x30 + n) as u8]
    } else {
        decimal_text(n / 10).push((0x30 + n % 10) as u8)
    }
}

/// An address in dotted-quad form, as `{}.{}.{}.{}` prints it.
pub open spec fn dotted_quad(ip: [u8; 4]) -> Seq<u8> {
    decimal_text(ip[0] as nat) + seq![DOT] + decimal_text(ip[1] as nat) + seq![DOT] + decimal_text(
        ip[2] as nat,
    ) + seq![DOT] + decimal_text(ip[3] as nat)
}

proof fn lemma_decimal_text(n: nat)
    ensures
        decimal_text(n).len() > 0,
        all_digits(decimal_text(n)),
        decimal_value(decimal_text(n)) == n,
    decreases n,
{
    let t = decimal_text(n);
    if n < 10 {
        assert(t.drop_last() =~= Seq::<u8>::empty());
        assert(decimal_value(Seq::<u8>::empty()) == 0);
        assert(t.last() == 0x30 + n);
        lemma_all_digits_push(Seq::<u8>::empty(), t.last());
        assert(Seq::<u8>::empty().push(t.last()) =~= t);
    } else {
        lemma_decimal_text(n / 10);
        let d = (0x30 + n % 10) as u8;
        assert(d == 0x30 + n % 10);
        assert(t.drop_last() =~= decimal_text(n / 10));
        assert(t.last() == d);
        assert((n / 10) * 10 + n % 10 == n);
        lemma_all_digits_push(decimal_text(n / 10), d);
    }
}

/// The fields of a text without dots: the text itself.
proof fn lemma_dot_fields_plain(b: Seq<u8>)
    requires
        all_digits(b),
    ensures
        dot_fields(b) == seq![b],
    decreases b.len(),
{
    if b.len() > 0 {
        assert(is_digit(b[b.len() - 1]));
        assert(b.drop_last().push(b.last()) =~= b);
        lemma_all_digits_push(b.drop_last(), b.last());
        lemma_dot_fields_plain(b.drop_last());
        let f = dot_fields(b.drop_last());
        assert(f.len() == 1 && f.last() == b.drop_last());
        assert(b.last() != DOT);
        assert(f.update(0, b.drop_last().push(b.last())) =~= seq![b]);
    } else {
        assert(b =~= Seq::<u8>::empty());
    }
}

/// A dot followed by a text without dots adds that text as one more field.
proof fn lemma_dot_fields_append(a: Seq<u8>, b: Seq<u8>)
    requires
        all_digits(b),
    ensures
        dot_fields(a + seq![DOT] + b) == dot_fields(a).push(b),
    decreases b.len(),
{
    let s = a + seq![DOT] + b;
    if b.len() == 0 {
        assert(s.drop_last() =~= a);
        assert(s.last() == DOT);
        assert(Seq::<u8>::empty() =~= b);
    } else {
        let b0 = b.drop_last();
        assert(is_digit(b[b.len() - 1]));
        assert(b0.push(b.last()) =~= b);
        lemma_all_digits_push(b0, b.last());
        lemma_dot_fields_append(a, b0);
        assert(s.drop_last() =~= a + seq![DOT] + b0);
        assert(s.last() == b.last());
        assert(s.last() != DOT);
        let f = dot_fields(a + seq![DOT] + b0);
        assert(f == dot_fields(a).push(b0));
        assert(f.last() == b0);
        assert(f.update(f.len() - 1, b0.push(b.last())) =~= dot_fields(a).push(b));
    }
}

proof fn lemma_parse_decimal_field(v: u8)
    ensures
        parse_u8_spec(decimal_text(v as nat)) == Some(v),
        all_digits(decimal_text(v as nat)),
{
    lemma_decimal_text(v as nat);
    let t = decimal_text(v as nat);
    assert(is_digit(t[0]));
}

/// What is printed is what is parsed: an address printed in dotted-quad form
/// (`{}.{}.{}.{}`) parses back to the same address.
pub proof fn lemma_parse_dotted_quad(ip: [u8; 4])
    ensures
        parse_ip_spec(dotted_quad(ip)) == Some(ip),
{
    let t0 = decimal_text(ip[0] as nat);
    let t1 = decimal_text(ip[1] as nat);
    let t2 = decimal_text(ip[2] as nat);
    let t3 = decimal_text(ip[3] as nat);
    lemma_parse_decimal_field(ip[0]);
    lemma_parse_decimal_field(ip[1]);
    lemma_parse_decimal_field(ip[2]);
    lemma_parse_decimal_field(ip[3]);
    lemma_dot_fields_plain(t0);
    lemma_dot_fields_append(t0, t1);
    lemma_dot_fields_append(t0 + seq![DOT] + t1, t2);
    lemma_dot_fields_append(t0 + seq![DOT] + t1 + seq![DOT] + t2, t3);
    let fs = dot_fields(dotted_quad(ip));
    assert(fs =~= seq![t0, t1, t2, t3]);
    assert(fs[0] == t0 && fs[1] == t1 && fs[2] == t2 && fs[3] == t3);
    assert(ip@ =~= [ip[0], ip[1], ip[2], ip[3]]@);
}

/// What the line editor did with one key.
#[derive(Debug, Clone, Copy, PartialEq, Eq, Structural)]
pub enum KeyOutcome {
    /// Enter: the line is complete.
    Submit,
    /// Ctrl+C: the line is discarded.
    Cancel,
    /// Backspace or Delete removed the last character (echo `\x08 \x08`).
    Erased,
    /// A printable character was appended (echo it).
    Inserted,
    /// A control character, or an erase on an empty line: nothing happens.
    Ignored,
}

/// Whether `c` is an ASCII control character (U+0000..=U+001F or U+007F).
pub open spec fn is_ascii_control(c: char) -> bool {
    (c as u32) <= 0x1f || (c as u32) == 0x7f
}

/// Apply `key` to the line being typed in `line`: Enter (`\n` or `\r`)
/// submits it, Backspace (`\x08`) or Delete (`\x7f`) erases its last
/// character, Ctrl+C (`\x03`) discards it, other control characters are
/// ignored, and every other character is appended.
pub fn edit_line(line: &mut Vec<char>, key: char) -> (r: KeyOutcome)
    ensures
        (key == '\n' || key == '\r') ==> r == KeyOutcome::Submit && final(line)@ == old(line)@,
        key == '\x03' ==> r == KeyOutcome::Cancel && final(line)@ == Seq::<char>::empty(),
        (key == '\x08' || key == '\x7f') ==> if old(line)@.len() > 0 {
            r == KeyOutcome::Erased && final(line)@ == old(line)@.drop_last()
        } else {
            r == KeyOutcome::Ignored && final(line)@ == old(line)@
        },
        (is_ascii_control(key) && key != '\n' && key != '\r' && key != '\x08' && key != '\x7f'
            && key != '\x03') ==> r == KeyOutcome::Ignored && final(line)@ == old(line)@,
        !is_ascii_control(key) ==> r == KeyOutcome::Inserted && final(line)@ == old(line)@.push(
            key,
        ),
{
    let code = key as u32;
    if key == '\n' || key == '\r' {
        KeyOutcome::Submit
    } else if key == '\x08' || key == '\x7f' {
        if line.len() > 0 {
            line.pop();
            KeyOutcome::Erased
        } else {
            KeyOutcome::Ignored
        }
    } else if key == '\x03' {
        line.clear();
        KeyOutcome::Cancel
    } else if code <= 0x1f || code == 0x7f {
        KeyOutcome::Ignored
    } else {
        line.push(key);
        KeyOutcome::Inserted
    }
}

/// Rating that the security report prints next to its score.
#[derive(Debug, Clone, Copy, PartialEq, Eq, Structural)]
pub enum SecurityRating {
    Strong,
    Good,
    Fair,
}

/// The rating for an audit `score` out of 100: STRONG from 80, GOOD from 60,
/// FAIR below.
pub fn security_rating(score: u32) -> (r: SecurityRating)
    ensures
        score >= 80 ==> r == SecurityRating::Strong,
        60 <= score < 80 ==> r == SecurityRating::Good,
        score < 60 ==> r == SecurityRating::Fair,
{
    if score >= 80 {
        SecurityRating::Strong
    } else if score >= 60 {
        SecurityRating::Good
    } else {
        SecurityRating::Fair
    }
}

/// Little-endian bytes of a 32-bit register.
pub open spec fn le32_bytes(v: u32) -> Seq<u8> {
    seq![
        (v % 256) as u8,
        ((v / 256) % 256) as u8,
        ((v / 65536) % 256) as u8,
        (v / 16777216) as u8,
    ]
}

/// The 48 bytes of the processor brand string that CPUID leaves
/// 0x80000002..=0x80000004 return in EAX, EBX, ECX, EDX (`regs[leaf][reg]`),
/// each register little-endian.
pub open spec fn brand_bytes_spec(regs: [[u32; 4]; 3]) -> Seq<u8> {
    Seq::new(48, |i: int| le32_bytes(regs@[i / 16]@[(i % 16) / 4])[i % 4])
}

/// Assemble the processor brand string bytes from the CPUID registers.
pub fn brand_bytes(regs: [[u32; 4]; 3]) -> (r: Vec<u8>)
    ensures
        r@ == brand_bytes_spec(regs),
{
    let mut out: Vec<u8> = Vec::new();
    let mut leaf: usize = 0;
    while leaf < 3
        invariant
            leaf <= 3,
            out@.len() == leaf * 16,
            forall|i: int| 0 <= i < out@.len() ==> out@[i] == brand_bytes_spec(regs)[i],
        decreases 3 - leaf,
    {
        let mut reg: usize = 0;
        while reg < 4
            invariant
                leaf < 3,
                reg <= 4,
                out@.len() == leaf * 16 + reg * 4,
                forall|i: int| 0 <= i < out@.len() ==> out@[i] == brand_bytes_spec(regs)[i],
            decreases 4 - reg,
        {
            let word = regs[leaf][reg];
            let ghost base = out@.len() as int;
            out.push((word % 256) as u8);
            out.push(((word / 256) % 256) as u8);
            out.push(((word / 65536) % 256) as u8);
            out.push((word / 16777216) as u8);
            assert forall|i: int| base <= i < base + 4 implies out@[i] == brand_bytes_spec(
                regs,
            )[i] by {
                assert(i / 16 == leaf);
                assert((i % 16) / 4 == reg);
                assert(i % 4 == i - base);
            }
            reg = reg + 1;
        }
        leaf = leaf + 1;
    }
    assert(out@ =~= brand_bytes_spec(regs));
    out
}


/// Whether `c` has the Unicode White_Space property (what `char::is_whitespace`
/// tests): U+0009..=U+000D, U+0020, U+0085, U+00A0, U+1680, U+2000..=U+200A,
/// U+2028, U+2029, U+202F, U+205F and U+3000.
pub open spec fn is_ws(c: char) -> bool {
    let v = c as u32;
    ||| 0x09 <= v <= 0x0d
    ||| v == 0x20
    ||| v == 0x85
    ||| v == 0xa0
    ||| v == 0x1680
    ||| 0x2000 <= v <= 0x200a
    ||| v == 0x2028
    ||| v == 0x2029
    ||| v == 0x202f
    ||| v == 0x205f
    ||| v == 0x3000
}

/// Whether `c` is white space (see `is_ws`).
pub fn is_whitespace_char(c: char) -> (r: bool)
    ensures
        r == is_ws(c),
{
    let v = c as u32;
    (0x09 <= v && v <= 0x0d) || v == 0x20 || v == 0x85 || v == 0xa0 || v == 0x1680 || (0x2000 <= v
        && v <= 0x200a) || v == 0x2028 || v == 0x2029 || v == 0x202f || v == 0x205f || v == 0x3000
}

/// `s` without its leading white space.
pub open spec fn trim_start_spec(s: Seq<char>) -> Seq<char>
    decreases s.len(),
{
    if s.len() > 0 && is_ws(s[0]) {
        trim_start_spec(s.skip(1))
    } else {
        s
    }
}

/// `s` without its trailing white space.
pub open spec fn trim_end_spec(s: Seq<char>) -> Seq<char>
    decreases s.len(),
{
    if s.len() > 0 && is_ws(s.last()) {
        trim_end_spec(s.drop_last())
    } else {
        s
    }
}

/// `s` without leading and trailing white space.
pub open spec fn trim_spec(s: Seq<char>) -> Seq<char> {
    trim_end_spec(trim_start_spec(s))
}

/// Index of the first space in `s`, or its length when it has none.
pub open spec fn space_index(s: Seq<char>) -> nat
    decreases s.len(),
{
    if s.len() == 0 {
        0
    } else if s[0] == ' ' {
        0
    } else {
        1 + space_index(s.skip(1))
    }
}

/// Shell commands.
#[derive(Debug, Clone, Copy, PartialEq, Eq, Structural)]
pub enum Command {
    Help,
    Uname,
    Mem,
    Uptime,
    Ls,
    Cat,
    Write,
    Mkdir,
    Rm,
    Echo,
    Net,
    Ping,
    Netstat,
    Socket,
    Rand,
    Security,
    Cpu,
    Clear,
    /// Any other word.
    Unknown,
}

/// The command that the word `name` names.
pub open spec fn command_spec(name: Seq<char>) -> Command {
    if name == seq!['h', 'e', 'l', 'p'] {
        Command::Help
    } else if name == seq!['u', 'n', 'a', 'm', 'e'] {
        Command::Uname
    } else if name == seq!['m', 'e', 'm'] {
        Command::Mem
    } else if name == seq!['u', 'p', 't', 'i', 'm', 'e'] {
        Command::Uptime
    } else if name == seq!['l', 's'] {
        Command::Ls
    } else if name == seq!['c', 'a', 't'] {
        Command::Cat
    } else if name == seq!['w', 'r', 'i', 't', 'e'] {
        Command::Write
    } else if name == seq!['m', 'k', 'd', 'i', 'r'] {
        Command::Mkdir
    } else if name == seq!['r', 'm'] {
        Command::Rm
    } else if name == seq!['e', 'c', 'h', 'o'] {
        Command::Echo
    } else if name == seq!['n', 'e', 't'] {
        Command::Net
    } else if name == seq!['p', 'i', 'n', 'g'] {
        Command::Ping
    } else if name == seq!['n', 'e', 't', 's', 't', 'a', 't'] {
        Command::Netstat
    } else if name == seq!['s', 'o', 'c', 'k', 'e', 't'] {
        Command::Socket
    } else if name == seq!['r', 'a', 'n', 'd'] {
        Command::Rand
    } else if name == seq!['s', 'e', 'c', 'u', 'r', 'i', 't', 'y'] {
        Command::Security
    } else if name == seq!['c', 'p', 'u'] {
        Command::Cpu
    } else if name == seq!['c', 'l', 'e', 'a', 'r'] {
        Command::Clear
    } else {
        Command::Unknown
    }
}

fn chars_equal(a: &Vec<char>, lo: usize, hi: usize, b: &[char]) -> (r: bool)
    requires
        lo <= hi <= a@.len(),
    ensures
        r == (a@.subrange(lo as int, hi as int) == b@),
{
    if hi - lo != b.len() {
        return false;
    }
    let mut i: usize = 0;
    while i < b.len()
        invariant
            hi - lo == b@.len(),
            lo <= hi <= a@.len(),
            i <= b@.len(),
            forall|j: int| 0 <= j < i ==> a@[lo + j] == b@[j],
        decreases b.len() - i,
    {
        if a[lo + i] != b[i] {
            assert(a@.subrange(lo as int, hi as int)[i as int] != b@[i as int]);
            return false;
        }
        i = i + 1;
    }
    assert(a@.subrange(lo as int, hi as int) =~= b@);
    true
}

/// The command that the word `line[lo..hi]` names.
fn command_of(line: &Vec<char>, lo: usize, hi: usize) -> (r: Command)
    requires
        lo <= hi <= line@.len(),
    ensures
        r == command_spec(line@.subrange(lo as int, hi as int)),
{
    let ghost w = line@.subrange(lo as int, hi as int);
    if chars_equal(line, lo, hi, &['h', 'e', 'l', 'p']) {
        assert(w == seq!['h', 'e', 'l', 'p']);
        Command::Help
    } else if chars_equal(line, lo, hi, &['u', 'n', 'a', 'm', 'e']) {
        Command::Uname
    } else if chars_equal(line, lo, hi, &['m', 'e', 'm']) {
        Command::Mem
    } else if chars_equal(line, lo, hi, &['u', 'p', 't', 'i', 'm', 'e']) {
        Command::Uptime
    } else if chars_equal(line, lo, hi, &['l', 's']) {
        Command::Ls
    } else if chars_equal(line, lo, hi, &['c', 'a', 't']) {
        Command::Cat
    } else if chars_equal(line, lo, hi, &['w', 'r', 'i', 't', 'e']) {
        Command::Write
    } else if chars_equal(line, lo, hi, &['m', 'k', 'd', 'i', 'r']) {
        Command::Mkdir
    } else if chars_equal(line, lo, hi, &['r', 'm']) {
        Command::Rm
    } else if chars_equal(line, lo, hi, &['e', 'c', 'h', 'o']) {
        Command::Echo
    } else if chars_equal(line, lo, hi, &['n', 'e', 't']) {
        Command::Net
    } else if chars_equal(line, lo, hi, &['p', 'i', 'n', 'g']) {
        Command::Ping
    } else if chars_equal(line, lo, hi, &['n', 'e', 't', 's', 't', 'a', 't']) {
        Command::Netstat
    } else if chars_equal(line, lo, hi, &['s', 'o', 'c', 'k', 'e', 't']) {
        Command::Socket
    } else if chars_equal(line, lo, hi, &['r', 'a', 'n', 'd']) {
        Command::Rand
    } else if chars_equal(line, lo, hi, &['s', 'e', 'c', 'u', 'r', 'i', 't', 'y']) {
        Command::Security
    } else if chars_equal(line, lo, hi, &['c', 'p', 'u']) {
        Command::Cpu
    } else if chars_equal(line, lo, hi, &['c', 'l', 'e', 'a', 'r']) {
        Command::Clear
    } else {
        Command::Unknown
    }
}


/// A command line split the way the shell splits it: the line trimmed, cut
/// at its first two spaces into the command word and two arguments, each
/// argument trimmed in turn; `None` for a blank line.
pub open spec fn split_command_spec(line: Seq<char>) -> Option<(Seq<char>, Seq<char>, Seq<char>)> {
    let t = trim_spec(line);
    if t.len() == 0 {
        None
    } else {
        let i = space_index(t);
        let name = t.take(i as int);
        if i == t.len() {
            Some((name, Seq::<char>::empty(), Seq::<char>::empty()))
        } else {
            let rest = t.skip(i as int + 1);
            let j = space_index(rest);
            let arg1 = trim_spec(rest.take(j as int));
            let arg2 = if j == rest.len() {
                Seq::<char>::empty()
            } else {
                trim_spec(rest.skip(j as int + 1))
            };
            Some((name, arg1, arg2))
        }
    }
}

/// A parsed command line.
pub struct CommandLine {
    pub command: Command,
    /// The command word as typed.
    pub name: Vec<char>,
    pub arg1: Vec<char>,
    pub arg2: Vec<char>,
}

fn trim_range(s: &Vec<char>, lo: usize, hi: usize) -> (r: (usize, usize))
    requires
        lo <= hi <= s@.len(),
    ensures
        lo <= r.0 <= r.1 <= hi,
        s@.subrange(r.0 as int, r.1 as int) == trim_spec(s@.subrange(lo as int, hi as int)),
{
    let mut a = lo;
    while a < hi && is_whitespace_char(s[a])
        invariant
            lo <= a <= hi <= s@.len(),
            trim_start_spec(s@.subrange(lo as int, hi as int)) == trim_start_spec(
                s@.subrange(a as int, hi as int),
            ),
        decreases hi - a,
    {
        assert(s@.subrange(a as int, hi as int).skip(1) =~= s@.subrange(a + 1, hi as int));
        a = a + 1;
    }
    let mut b = hi;
    while b > a && is_whitespace_char(s[b - 1])
        invariant
            a <= b <= hi <= s@.len(),
            a == hi || !is_ws(s@[a as int]),
            trim_end_spec(s@.subrange(a as int, hi as int)) == trim_end_spec(
                s@.subrange(a as int, b as int),
            ),
        decreases b - a,
    {
        assert(s@.subrange(a as int, b as int).drop_last() =~= s@.subrange(a as int, b - 1));
        b = b - 1;
    }
    (a, b)
}

fn find_space(s: &Vec<char>, lo: usize, hi: usize) -> (r: usize)
    requires
        lo <= hi <= s@.len(),
    ensures
        lo <= r <= hi,
        r - lo == space_index(s@.subrange(lo as int, hi as int)),
{
    let mut i = lo;
    while i < hi && s[i] != ' '
        invariant
            lo <= i <= hi <= s@.len(),
            space_index(s@.subrange(lo as int, hi as int)) == (i - lo) + space_index(
                s@.subrange(i as int, hi as int),
            ),
        decreases hi - i,
    {
        assert(s@.subrange(i as int, hi as int).skip(1) =~= s@.subrange(i + 1, hi as int));
        i = i + 1;
    }
    i
}

fn copy_range(s: &Vec<char>, lo: usize, hi: usize) -> (r: Vec<char>)
    requires
        lo <= hi <= s@.len(),
    ensures
        r@ == s@.subrange(lo as int, hi as int),
{
    let mut out: Vec<char> = Vec::new();
    let mut i = lo;
    while i < hi
        invariant
            lo <= i <= hi <= s@.len(),
            out@ == s@.subrange(lo as int, i as int),
        decreases hi - i,
    {
        out.push(s[i]);
        i = i + 1;
        assert(out@ =~= s@.subrange(lo as int, i as int));
    }
    out
}

/// Split a typed line into its command and arguments; `None` for a blank
/// line.
pub fn parse_command_line(line: &Vec<char>) -> (r: Option<CommandLine>)
    ensures
        match split_command_spec(line@) {
            None => r is None,
            Some((name, a1, a2)) => r matches Some(cl) && {
                &&& cl.name@ == name
                &&& cl.arg1@ == a1
                &&& cl.arg2@ == a2
                &&& cl.command == command_spec(name)
            },
        },
{
    let n = line.len();
    assert(line@.subrange(0, n as int) =~= line@);
    let (a, b) = trim_range(line, 0, n);
    let ghost t = line@.subrange(a as int, b as int);
    if a == b {
        return None;
    }
    let i = find_space(line, a, b);
    assert(t.take(i - a) =~= line@.subrange(a as int, i as int));
    let name = copy_range(line, a, i);
    let command = command_of(line, a, i);
    if i == b {
        return Some(CommandLine { command, name, arg1: Vec::new(), arg2: Vec::new() });
    }
    let r0 = i + 1;
    let ghost rest = t.skip(i - a + 1);
    assert(rest =~= line@.subrange(r0 as int, b as int));
    let j = find_space(line, r0, b);
    assert(rest.take(j - r0) =~= line@.subrange(r0 as int, j as int));
    let (x, y) = trim_range(line, r0, j);
    let arg1 = copy_range(line, x, y);
    if j == b {
        return Some(CommandLine { command, name, arg1, arg2: Vec::new() });
    }
    assert(rest.skip(j - r0 + 1) =~= line@.subrange(j + 1, b as int));
    let (u, v) = trim_range(line, j + 1, b);
    let arg2 = copy_range(line, u, v);
    Some(CommandLine { command, name, arg1, arg2 })
}


/// Number of bytes shown per hex-dump row.
pub const HEX_ROW_BYTES: usize = 16;

/// Lower-case hexadecimal digit for `d < 16`.
pub open spec fn hex_digit(d: nat) -> u8 {
    if d < 10 {
        (0x30 + d) as u8
    } else {
        (0x61 + d - 10) as u8
    }
}

/// Lower-case hexadecimal text of `n`, without leading zeros.
pub open spec fn hex_text(n: nat) -> Seq<u8>
    decreases n,
{
    if n < 16 {
        seq![hex_digit(n)]
    } else {
        hex_text(n / 16).push(hex_digit(n % 16))
    }
}

/// `s` padded on the left with `0` to at least `width` characters.
pub open spec fn zero_pad(s: Seq<u8>, width: nat) -> Seq<u8> {
    if s.len() < width {
        Seq::new((width - s.len()) as nat, |i: int| 0x30u8) + s
    } else {
        s
    }
}

/// How a byte shows in the text column: itself when it is a printable,
/// non-space ASCII character, `.` otherwise.
pub open spec fn shown_byte(b: u8) -> u8 {
    if 0x21 <= b <= 0x7e {
        b
    } else {
        0x2e
    }
}

/// The hex column of a row: each byte as two hex digits and a space.
pub open spec fn hex_column(chunk: Seq<u8>) -> Seq<u8>
    decreases chunk.len(),
{
    if chunk.len() == 0 {
        Seq::empty()
    } else {
        hex_column(chunk.drop_last()) + zero_pad(hex_text(chunk.last() as nat), 2) + seq![0x20u8]
    }
}

/// One hex-dump row for the bytes `chunk` (at most 16) at `offset`: two
/// spaces, the offset in at least four hex digits, two spaces, the hex
/// column padded to 16 entries, ` |`, the text column and `|`.
pub open spec fn hex_row(offset: nat, chunk: Seq<u8>) -> Seq<u8> {
    seq![0x20u8, 0x20u8] + zero_pad(hex_text(offset), 4) + seq![0x20u8, 0x20u8] + hex_column(chunk)
        + Seq::new((3 * (16 - chunk.len())) as nat, |i: int| 0x20u8) + seq![0x20u8, 0x7cu8]
        + chunk.map_values(|b: u8| shown_byte(b)) + seq![0x7cu8]
}

fn hex_digit_of(d: u8) -> (r: u8)
    requires
        d < 16,
    ensures
        r == hex_digit(d as nat),
{
    if d < 10 {
        0x30 + d
    } else {
        0x61 + d - 10
    }
}

fn push_hex(out: &mut Vec<u8>, n: usize)
    ensures
        final(out)@ == old(out)@ + hex_text(n as nat),
    decreases n,
{
    if n >= 16 {
        push_hex(out, n / 16);
    }
    out.push(hex_digit_of((n % 16) as u8));
    if n >= 16 {
        assert(final(out)@ =~= old(out)@ + hex_text(n as nat));
    } else {
        assert(final(out)@ =~= old(out)@ + hex_text(n as nat));
    }
}

fn push_hex_padded(out: &mut Vec<u8>, n: usize, width: usize)
    ensures
        final(out)@ == old(out)@ + zero_pad(hex_text(n as nat), width as nat),
{
    let mut digits: Vec<u8> = Vec::new();
    push_hex(&mut digits, n);
    assert(digits@ =~= hex_text(n as nat));
    let mut k: usize = digits.len();
    while k < width
        invariant
            digits@ == hex_text(n as nat),
            digits@.len() <= k <= width || (k == digits@.len() && k >= width),
            out@ == old(out)@ + Seq::new((k - digits@.len()) as nat, |i: int| 0x30u8),
        decreases width - k,
    {
        out.push(0x30u8);
        k = k + 1;
        assert(out@ =~= old(out)@ + Seq::new((k - digits@.len()) as nat, |i: int| 0x30u8));
    }
    let ghost pre = out@;
    out.append(&mut digits);
    assert(out@ =~= old(out)@ + zero_pad(hex_text(n as nat), width as nat));
}

/// The hex-dump row for `chunk` (at most 16 bytes) at `offset`.
pub fn hex_dump_row(offset: usize, chunk: &[u8]) -> (r: Vec<u8>)
    requires
        chunk.len() <= HEX_ROW_BYTES,
    ensures
        r@ == hex_row(offset as nat, chunk@),
{
    let mut out: Vec<u8> = Vec::new();
    out.push(0x20u8);
    out.push(0x20u8);
    push_hex_padded(&mut out, offset, 4);
    out.push(0x20u8);
    out.push(0x20u8);
    let ghost head = out@;
    let mut i: usize = 0;
    while i < chunk.len()
        invariant
            i <= chunk.len() <= HEX_ROW_BYTES,
            out@ == head + hex_column(chunk@.take(i as int)),
        decreases chunk.len() - i,
    {
        assert(chunk@.take(i + 1).drop_last() =~= chunk@.take(i as int));
        push_hex_padded(&mut out, chunk[i] as usize, 2);
        out.push(0x20u8);
        i = i + 1;
        assert(out@ =~= head + hex_column(chunk@.take(i as int)));
    }
    assert(chunk@.take(chunk.len() as int) =~= chunk@);
    let ghost with_hex = out@;
    let mut pad: usize = chunk.len();
    while pad < HEX_ROW_BYTES
        invariant
            chunk.len() <= pad <= HEX_ROW_BYTES,
            out@ == with_hex + Seq::new((3 * (pad - chunk.len())) as nat, |j: int| 0x20u8),
        decreases HEX_ROW_BYTES - pad,
    {
        out.push(0x20u8);
        out.push(0x20u8);
        out.push(0x20u8);
        pad = pad + 1;
        assert(out@ =~= with_hex + Seq::new((3 * (pad - chunk.len())) as nat, |j: int| 0x20u8));
    }
    out.push(0x20u8);
    out.push(0x7cu8);
    let ghost before_text = out@;
    let mut t: usize = 0;
    while t < chunk.len()
        invariant
            t <= chunk.len(),
            out@ == before_text + chunk@.take(t as int).map_values(|b: u8| shown_byte(b)),
        decreases chunk.len() - t,
    {
        let b = chunk[t];
        out.push(if 0x21 <= b && b <= 0x7e { b } else { 0x2eu8 });
        t = t + 1;
        assert(out@ =~= before_text + chunk@.take(t as int).map_values(|b: u8| shown_byte(b)));
    }
    out.push(0x7cu8);
    assert(out@ =~= hex_row(offset as nat, chunk@));
    out
}

/// Hex dump of `data`: one row per 16 bytes, the last row shorter when the
/// length is not a multiple of 16.
pub fn hex_dump_rows(data: &[u8]) -> (r: Vec<Vec<u8>>)
    ensures
        r@.len() == (data@.len() + 15) / 16,
        forall|k: int|
            0 <= k < r@.len() ==> #[trigger] r@[k]@ == hex_row(
                (16 * k) as nat,
                data@.subrange(16 * k, if 16 * k + 16 < data@.len() { 16 * k + 16 } else { data@.len() as int }),
            ),
{
    let mut rows: Vec<Vec<u8>> = Vec::new();
    let mut start: usize = 0;
    while start < data.len()
        invariant
            start <= data.len(),
            start == 16 * rows@.len() || (start == data.len() && 16 * rows@.len() >= data.len()
                && 16 * rows@.len() < data.len() + 16),
            start < data.len() ==> start == 16 * rows@.len(),
            forall|k: int|
                0 <= k < rows@.len() ==> #[trigger] rows@[k]@ == hex_row(
                    (16 * k) as nat,
                    data@.subrange(16 * k, if 16 * k + 16 < data@.len() { 16 * k + 16 } else { data@.len() as int }),
                ),
        decreases data.len() - start,
    {
        let end = if data.len() - start > 16 {
            start + 16
        } else {
            data.len()
        };
        let row = hex_dump_row(start, &data[start..end]);
        rows.push(row);
        start = end;
    }
    rows
}

} // verus!
