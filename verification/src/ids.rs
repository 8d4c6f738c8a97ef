//! Typed identifiers and their canonical text form.
use vstd::prelude::*;
use vstd::arithmetic::power::pow;

verus! {

/// The lowercase hexadecimal digit for `n` in `0..16`.
pub open spec fn hex_char(n: int) -> char {
    if n < 10 {
        (48 + n) as char
    } else {
        (87 + n) as char
    }
}

/// The `k`-th hexadecimal digit (0 = most significant) of a 128-bit value.
pub open spec fn nibble(v: u128, k: int) -> int {
    (v as int / pow(16, (31 - k) as nat)) % 16
}

/// Hexadecimal digits `from..to` of a 128-bit value.
pub open spec fn hex_run(v: u128, from: int, to: int) -> Seq<char> {
    Seq::new((to - from) as nat, |j: int| hex_char(nibble(v, from + j)))
}

/// The canonical hyphenated lowercase text of a 128-bit identifier:
/// `xxxxxxxx-xxxx-xxxx-xxxx-xxxxxxxxxxxx`, most significant digit first.
pub open spec fn uuid_text(v: u128) -> Seq<char> {
    hex_run(v, 0, 8) + seq!['-'] + hex_run(v, 8, 12) + seq!['-'] + hex_run(v, 12, 16) + seq!['-']
        + hex_run(v, 16, 20) + seq!['-'] + hex_run(v, 20, 32)
}

/// The text of one hexadecimal digit.
fn hex_str(d: u64) -> (r: &'static str)
    requires
        d < 16,
    ensures
        r@ == seq![hex_char(d as int)],
{
    proof {
        reveal_strlit("0");
        reveal_strlit("1");
        reveal_strlit("2");
        reveal_strlit("3");
        reveal_strlit("4");
        reveal_strlit("5");
        reveal_strlit("6");
        reveal_strlit("7");
        reveal_strlit("8");
        reveal_strlit("9");
        reveal_strlit("a");
        reveal_strlit("b");
        reveal_strlit("c");
        reveal_strlit("d");
        reveal_strlit("e");
        reveal_strlit("f");
    }
    let r = if d == 0 { "0" } else if d == 1 { "1" } else if d == 2 { "2" } else if d == 3 { "3" } else if d == 4 { "4" }
    else if d == 5 { "5" } else if d == 6 { "6" } else if d == 7 { "7" } else if d == 8 { "8" } else if d == 9 { "9" }
    else if d == 10 { "a" } else if d == 11 { "b" } else if d == 12 { "c" } else if d == 13 { "d" } else if d == 14 { "e" }
    else { "f" };
    assert(r@ =~= seq![hex_char(d as int)]);
    r
}

/// The 32 hexadecimal digits of `value`, least significant first.
fn reversed_nibbles(value: u128) -> (rev: Vec<u64>)
    ensures
        rev.len() == 32,
        forall|k: int| 0 <= k < 32 ==> #[trigger] rev@[31 - k] == nibble(value, k) && rev@[31 - k] < 16,
{
    let mut rev: Vec<u64> = Vec::new();
    let mut x: u128 = value;
    let mut j: usize = 0;
    proof {
        vstd::arithmetic::power::lemma_pow0(16);
    }
    while j < 32
        invariant
            j <= 32,
            rev.len() == j,
            x as int == value as int / pow(16, j as nat),
            forall|i: int| 0 <= i < j ==> #[trigger] rev@[i] == (value as int / pow(16, i as nat)) % 16 && rev@[i] < 16,
        decreases 32 - j,
    {
        rev.push((x % 16) as u64);
        proof {
            vstd::arithmetic::power::lemma_pow_positive(16, j as nat);
            vstd::arithmetic::div_mod::lemma_div_denominator(value as int, pow(16, j as nat), 16);
            assert(pow(16, (j + 1) as nat) == 16 * pow(16, j as nat)) by {
                reveal(pow);
            }
            assert(pow(16, j as nat) * 16 == 16 * pow(16, j as nat)) by (nonlinear_arith);
        }
        x = x / 16;
        j = j + 1;
    }
    assert forall|k: int| 0 <= k < 32 implies #[trigger] rev@[31 - k] == nibble(value, k) && rev@[31 - k] < 16 by {
        assert(rev@[31 - k] == (value as int / pow(16, (31 - k) as nat)) % 16);
    }
    rev
}

/// Appends hexadecimal digits `from..to` of the value whose reversed digits are `rev`.
fn push_hex_run(out: &mut String, rev: &Vec<u64>, Ghost(value): Ghost<u128>, from: usize, to: usize)
    requires
        from <= to <= 32,
        rev.len() == 32,
        forall|k: int| 0 <= k < 32 ==> #[trigger] rev@[31 - k] == nibble(value, k) && rev@[31 - k] < 16,
    ensures
        final(out)@ == old(out)@ + hex_run(value, from as int, to as int),
{
    let mut k: usize = from;
    while k < to
        invariant
            from <= k <= to <= 32,
            rev.len() == 32,
            forall|i: int| 0 <= i < 32 ==> #[trigger] rev@[31 - i] == nibble(value, i) && rev@[31 - i] < 16,
            out@ == old(out)@ + hex_run(value, from as int, k as int),
        decreases to - k,
    {
        assert(rev@[31 - k as int] == nibble(value, k as int));
        out.append(hex_str(rev[31 - k]));
        assert(hex_run(value, from as int, k + 1) =~= hex_run(value, from as int, k as int).push(hex_char(nibble(value, k as int))));
        assert(out@ =~= old(out)@ + hex_run(value, from as int, k + 1));
        k = k + 1;
    }
}

/// Formats a 128-bit identifier in the canonical hyphenated lowercase form,
/// most significant digit first.
pub(crate) fn uuid_string(value: u128) -> (text: String)
    ensures
        text@ == uuid_text(value),
{
    proof {
        reveal_strlit("-");
    }
    let rev = reversed_nibbles(value);
    let mut text = String::new();
    push_hex_run(&mut text, &rev, Ghost(value), 0, 8);
    text.append("-");
    push_hex_run(&mut text, &rev, Ghost(value), 8, 12);
    text.append("-");
    push_hex_run(&mut text, &rev, Ghost(value), 12, 16);
    text.append("-");
    push_hex_run(&mut text, &rev, Ghost(value), 16, 20);
    text.append("-");
    push_hex_run(&mut text, &rev, Ghost(value), 20, 32);
    assert(text@ =~= uuid_text(value));
    text
}

/// `prefix` followed by the canonical text of `id`.
pub(crate) fn text_then_uuid(prefix: &str, id: u128) -> (r: String)
    ensures
        r@ == prefix@ + uuid_text(id),
{
    let mut text = String::from_str(prefix);
    let uuid = uuid_string(id);
    text.append(uuid.as_str());
    text
}

} // verus!
