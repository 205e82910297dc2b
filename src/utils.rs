//! Integer and string utilities.
use vstd::prelude::*;

use std::collections::HashMap;

use crate::text::{
    alphanumeric, chars_of, first_lowercase, is_alphanumeric, is_whitespace, lowercase_head,
    push_char, string_from_chars, white_space,
};

verus! {

broadcast use vstd::std_specs::hash::group_hash_axioms;

/// The Fibonacci numbers: 0, 1, 1, 2, 3, 5, ...
pub open spec fn fib(n: nat) -> nat
    decreases n,
{
    if n == 0 {
        0
    } else if n == 1 {
        1
    } else {
        fib((n - 1) as nat) + fib((n - 2) as nat)
    }
}

/// The largest index whose Fibonacci number fits in a `u64`.
pub const MAX_FIB_INDEX: u32 = 93;

/// The largest argument whose factorial fits in a `u64`.
pub const MAX_FACTORIAL_ARG: u64 = 20;

proof fn lemma_fib_table()
    ensures
        fib(93) == 12200160415121876738,
{
    assert(fib(0) == 0);
    assert(fib(1) == 1);
    assert(fib(2) == 1);
    assert(fib(3) == 2);
    assert(fib(4) == 3);
    assert(fib(5) == 5);
    assert(fib(6) == 8);
    assert(fib(7) == 13);
    assert(fib(8) == 21);
    assert(fib(9) == 34);
    assert(fib(10) == 55);
    assert(fib(11) == 89);
    assert(fib(12) == 144);
    assert(fib(13) == 233);
    assert(fib(14) == 377);
    assert(fib(15) == 610);
    assert(fib(16) == 987);
    assert(fib(17) == 1597);
    assert(fib(18) == 2584);
    assert(fib(19) == 4181);
    assert(fib(20) == 6765);
    assert(fib(21) == 10946);
    assert(fib(22) == 17711);
    assert(fib(23) == 28657);
    assert(fib(24) == 46368);
    assert(fib(25) == 75025);
    assert(fib(26) == 121393);
    assert(fib(27) == 196418);
    assert(fib(28) == 317811);
    assert(fib(29) == 514229);
    assert(fib(30) == 832040);
    assert(fib(31) == 1346269);
    assert(fib(32) == 2178309);
    assert(fib(33) == 3524578);
    assert(fib(34) == 5702887);
    assert(fib(35) == 9227465);
    assert(fib(36) == 14930352);
    assert(fib(37) == 24157817);
    assert(fib(38) == 39088169);
    assert(fib(39) == 63245986);
    assert(fib(40) == 102334155);
    assert(fib(41) == 165580141);
    assert(fib(42) == 267914296);
    assert(fib(43) == 433494437);
    assert(fib(44) == 701408733);
    assert(fib(45) == 1134903170);
    assert(fib(46) == 1836311903);
    assert(fib(47) == 2971215073);
    assert(fib(48) == 4807526976);
    assert(fib(49) == 7778742049);
    assert(fib(50) == 12586269025);
    assert(fib(51) == 20365011074);
    assert(fib(52) == 32951280099);
    assert(fib(53) == 53316291173);
    assert(fib(54) == 86267571272);
    assert(fib(55) == 139583862445);
    assert(fib(56) == 225851433717);
    assert(fib(57) == 365435296162);
    assert(fib(58) == 591286729879);
    assert(fib(59) == 956722026041);
    assert(fib(60) == 1548008755920);
    assert(fib(61) == 2504730781961);
    assert(fib(62) == 4052739537881);
    assert(fib(63) == 6557470319842);
    assert(fib(64) == 10610209857723);
    assert(fib(65) == 17167680177565);
    assert(fib(66) == 27777890035288);
    assert(fib(67) == 44945570212853);
    assert(fib(68) == 72723460248141);
    assert(fib(69) == 117669030460994);
    assert(fib(70) == 190392490709135);
    assert(fib(71) == 308061521170129);
    assert(fib(72) == 498454011879264);
    assert(fib(73) == 806515533049393);
    assert(fib(74) == 1304969544928657);
    assert(fib(75) == 2111485077978050);
    assert(fib(76) == 3416454622906707);
    assert(fib(77) == 5527939700884757);
    assert(fib(78) == 8944394323791464);
    assert(fib(79) == 14472334024676221);
    assert(fib(80) == 23416728348467685);
    assert(fib(81) == 37889062373143906);
    assert(fib(82) == 61305790721611591);
    assert(fib(83) == 99194853094755497);
    assert(fib(84) == 160500643816367088);
    assert(fib(85) == 259695496911122585);
    assert(fib(86) == 420196140727489673);
    assert(fib(87) == 679891637638612258);
    assert(fib(88) == 1100087778366101931);
    assert(fib(89) == 1779979416004714189);
    assert(fib(90) == 2880067194370816120);
    assert(fib(91) == 4660046610375530309);
    assert(fib(92) == 7540113804746346429);
    assert(fib(93) == 12200160415121876738);
}

proof fn lemma_fib_monotone(a: nat, b: nat)
    requires
        a <= b,
    ensures
        fib(a) <= fib(b),
    decreases b,
{
    if a < b {
        lemma_fib_monotone(a, (b - 1) as nat);
        if b >= 2 {
            assert(fib(b) == fib((b - 1) as nat) + fib((b - 2) as nat));
        }
    }
}

/// Every Fibonacci number up to index 93 fits in a `u64`.
proof fn lemma_fib_fits(n: nat)
    requires
        n <= 93,
    ensures
        fib(n) <= u64::MAX,
{
    lemma_fib_table();
    lemma_fib_monotone(n, 93);
}

/// The `n`th Fibonacci number, computed iteratively; an error above index 93,
/// whose value does not fit in a `u64`.
pub fn calculate_fibonacci(n: u32) -> (r: Result<u64, String>)
    ensures
        n <= MAX_FIB_INDEX ==> r == Ok::<u64, String>(fib(n as nat) as u64),
        n > MAX_FIB_INDEX ==> (r matches Err(e) && e@ == "Number too large for u64"@),
{
    if n > MAX_FIB_INDEX {
        return Err(String::from_str("Number too large for u64"));
    }
    proof { lemma_fib_fits(n as nat); }
    if n == 0 {
        return Ok(0);
    }
    let mut a: u64 = 0;
    let mut b: u64 = 1;
    let mut i: u32 = 1;
    while i < n
        invariant
            1 <= i <= n <= 93,
            a == fib((i - 1) as nat),
            b == fib(i as nat),
        decreases n - i,
    {
        proof { lemma_fib_fits((i + 1) as nat); }
        let sum = a + b;
        a = b;
        b = sum;
        i = i + 1;
    }
    Ok(b)
}

/// Fills `memo` with the Fibonacci numbers up to index `n` and returns the
/// `n`th one.
fn fib_memo(n: u32, memo: &mut HashMap<u32, u64>) -> (r: u64)
    requires
        n <= 93,
        forall|k: u32| #[trigger] old(memo)@.contains_key(k) ==> old(memo)@[k] == fib(k as nat),
    ensures
        r == fib(n as nat),
        forall|k: u32| #[trigger] final(memo)@.contains_key(k) ==> final(memo)@[k] == fib(k as nat),
    decreases n,
{
    match memo.get(&n) {
        Some(v) => {
            return *v;
        },
        None => {},
    }
    proof { lemma_fib_fits(n as nat); }
    let result = if n < 2 {
        n as u64
    } else {
        let a = fib_memo(n - 1, memo);
        let b = fib_memo(n - 2, memo);
        a + b
    };
    memo.insert(n, result);
    result
}

/// The `n`th Fibonacci number, computed by memoised recursion; an error
/// above index 93.
pub fn calculate_fibonacci_recursive(n: u32) -> (r: Result<u64, String>)
    ensures
        n <= MAX_FIB_INDEX ==> r == Ok::<u64, String>(fib(n as nat) as u64),
        n > MAX_FIB_INDEX ==> (r matches Err(e) && e@ == "Number too large for u64"@),
{
    if n > MAX_FIB_INDEX {
        return Err(String::from_str("Number too large for u64"));
    }
    let mut memo: HashMap<u32, u64> = HashMap::new();
    Ok(fib_memo(n, &mut memo))
}

/// `n!`.
pub open spec fn factorial_spec(n: nat) -> nat
    decreases n,
{
    if n == 0 {
        1
    } else {
        n * factorial_spec((n - 1) as nat)
    }
}

proof fn lemma_factorial_table()
    ensures
        factorial_spec(20) == 2432902008176640000,
{
    assert(factorial_spec(0) == 1);
    assert(factorial_spec(1) == 1);
    assert(factorial_spec(2) == 2);
    assert(factorial_spec(3) == 6);
    assert(factorial_spec(4) == 24);
    assert(factorial_spec(5) == 120);
    assert(factorial_spec(6) == 720);
    assert(factorial_spec(7) == 5040);
    assert(factorial_spec(8) == 40320);
    assert(factorial_spec(9) == 362880);
    assert(factorial_spec(10) == 3628800);
    assert(factorial_spec(11) == 39916800);
    assert(factorial_spec(12) == 479001600);
    assert(factorial_spec(13) == 6227020800);
    assert(factorial_spec(14) == 87178291200);
    assert(factorial_spec(15) == 1307674368000);
    assert(factorial_spec(16) == 20922789888000);
    assert(factorial_spec(17) == 355687428096000);
    assert(factorial_spec(18) == 6402373705728000);
    assert(factorial_spec(19) == 121645100408832000);
    assert(factorial_spec(20) == 2432902008176640000);
}

proof fn lemma_factorial_monotone(a: nat, b: nat)
    requires
        a <= b,
    ensures
        factorial_spec(a) <= factorial_spec(b),
        factorial_spec(a) >= 1,
    decreases b,
{
    if a < b {
        lemma_factorial_monotone(a, (b - 1) as nat);
        let p = factorial_spec((b - 1) as nat);
        assert(p <= b * p) by (nonlinear_arith)
            requires
                b >= 1,
                p >= 1,
        ;
    } else {
        if a > 0 {
            lemma_factorial_monotone((a - 1) as nat, (a - 1) as nat);
            let p = factorial_spec((a - 1) as nat);
            assert(a * p >= 1) by (nonlinear_arith)
                requires
                    a >= 1,
                    p >= 1,
            ;
        }
    }
}

/// `n!`; an error above 20, whose factorial does not fit in a `u64`.
pub fn factorial(n: u64) -> (r: Result<u64, String>)
    ensures
        n <= MAX_FACTORIAL_ARG ==> r == Ok::<u64, String>(factorial_spec(n as nat) as u64),
        n > MAX_FACTORIAL_ARG ==> (r matches Err(e) && e@ == "Number too large for u64 factorial"@),
{
    if n > MAX_FACTORIAL_ARG {
        return Err(String::from_str("Number too large for u64 factorial"));
    }
    proof {
        lemma_factorial_table();
        lemma_factorial_monotone(n as nat, 20);
    }
    let mut result: u64 = 1;
    let mut i: u64 = 1;
    while i <= n
        invariant
            1 <= i <= n + 1,
            n <= 20,
            result == factorial_spec((i - 1) as nat),
        decreases n + 1 - i,
    {
        proof {
            lemma_factorial_table();
            lemma_factorial_monotone(i as nat, 20);
        }
        let ghost f = factorial_spec(i as nat);
        assert(f == i * factorial_spec((i - 1) as nat));
        assert(result * i == f) by (nonlinear_arith)
            requires
                f == i * result,
        ;
        assert(f <= 2432902008176640000);
        result = result * i;
        i = i + 1;
    }
    Ok(result)
}

/// The greatest common divisor, by Euclid's recurrence.
pub open spec fn gcd_spec(a: nat, b: nat) -> nat
    decreases b,
{
    if b == 0 {
        a
    } else {
        gcd_spec(b, a % b)
    }
}

proof fn lemma_gcd_positive(a: nat, b: nat)
    requires
        a > 0 || b > 0,
    ensures
        gcd_spec(a, b) > 0,
    decreases b,
{
    if b > 0 {
        lemma_gcd_positive(b, a % b);
    }
}

/// `gcd_spec(a, b)` divides both `a` and `b`.
pub proof fn lemma_gcd_divides_both(a: nat, b: nat)
    requires
        a > 0 || b > 0,
    ensures
        gcd_spec(a, b) > 0,
        a % gcd_spec(a, b) == 0,
        b % gcd_spec(a, b) == 0,
    decreases b,
{
    lemma_gcd_positive(a, b);
    if b == 0 {
        vstd::arithmetic::div_mod::lemma_mod_self_0(a as int);
    } else {
        let g = gcd_spec(a, b);
        let r = a % b;
        lemma_gcd_divides_both(b, r);
        vstd::arithmetic::div_mod::lemma_fundamental_div_mod(a as int, b as int);
        vstd::arithmetic::div_mod::lemma_fundamental_div_mod(b as int, g as int);
        vstd::arithmetic::div_mod::lemma_fundamental_div_mod(r as int, g as int);
        let x = b / g;
        let y = r / g;
        let q = a / b;
        assert(a == g * (x * q + y)) by (nonlinear_arith)
            requires
                a == b * q + r,
                b == g * x,
                r == g * y,
        ;
        vstd::arithmetic::div_mod::lemma_mod_multiples_basic((x * q + y) as int, g as int);
        assert(a == (x * q + y) * g) by (nonlinear_arith)
            requires
                a == g * (x * q + y),
        ;
    }
}

/// Every common divisor of `a` and `b` divides `gcd_spec(a, b)`.
pub proof fn lemma_common_divisor_divides_gcd(a: nat, b: nat, d: nat)
    requires
        d > 0,
        a % d == 0,
        b % d == 0,
    ensures
        gcd_spec(a, b) % d == 0,
    decreases b,
{
    if b > 0 {
        let r = a % b;
        vstd::arithmetic::div_mod::lemma_fundamental_div_mod(a as int, b as int);
        vstd::arithmetic::div_mod::lemma_fundamental_div_mod(a as int, d as int);
        vstd::arithmetic::div_mod::lemma_fundamental_div_mod(b as int, d as int);
        let x = a / d;
        let y = b / d;
        let q = a / b;
        assert(r == (x - y * q) * d) by (nonlinear_arith)
            requires
                a == b * q + r,
                a == d * x,
                b == d * y,
        ;
        vstd::arithmetic::div_mod::lemma_mod_multiples_basic(x - y * q, d as int);
        lemma_common_divisor_divides_gcd(b, r, d);
    }
}

/// The greatest common divisor of `a` and `b`; `gcd(0, 0)` is 0.
pub fn gcd(a: u64, b: u64) -> (r: u64)
    ensures
        r == gcd_spec(a as nat, b as nat),
{
    let mut x = a;
    let mut y = b;
    while y != 0
        invariant
            gcd_spec(x as nat, y as nat) == gcd_spec(a as nat, b as nat),
        decreases y,
    {
        let t = y;
        y = x % y;
        x = t;
    }
    x
}

/// The least common multiple as `a / gcd(a, b) * b`: 0 where either is 0,
/// `None` where it does not fit in a `u64`.
pub open spec fn lcm_spec(a: nat, b: nat) -> Option<nat> {
    if a == 0 || b == 0 {
        Some(0)
    } else if (a / gcd_spec(a, b)) * b <= u64::MAX {
        Some((a / gcd_spec(a, b)) * b)
    } else {
        None
    }
}

/// The least common multiple of `a` and `b`, or `None` on overflow.
pub fn lcm(a: u64, b: u64) -> (r: Option<u64>)
    ensures
        r matches Some(v) ==> lcm_spec(a as nat, b as nat) == Some(v as nat),
        r is None <==> lcm_spec(a as nat, b as nat) is None,
{
    if a == 0 || b == 0 {
        return Some(0);
    }
    let g = gcd(a, b);
    proof { lemma_gcd_positive(a as nat, b as nat); }
    match a.checked_div(g) {
        Some(q) => q.checked_mul(b),
        None => None,
    }
}

/// `n` is prime: at least 2 and without a divisor strictly between 1 and `n`.
pub open spec fn prime(n: nat) -> bool {
    n >= 2 && forall|d: nat| 2 <= d < n ==> #[trigger] (n % d) != 0
}

proof fn lemma_odd_has_no_even_divisor(n: nat, d: nat)
    requires
        n % 2 == 1,
        d % 2 == 0,
        d > 0,
    ensures
        n % d != 0,
{
    if n % d == 0 {
        let q = n / d;
        let h = d / 2;
        vstd::arithmetic::div_mod::lemma_fundamental_div_mod(n as int, d as int);
        assert(n == d * q);
        assert(d == 2 * h);
        assert(n == (h * q) * 2) by (nonlinear_arith)
            requires
                n == d * q,
                d == 2 * h,
        ;
        vstd::arithmetic::div_mod::lemma_mod_multiples_basic((h * q) as int, 2);
    }
}

proof fn lemma_no_large_divisor(n: nat, i: nat, d: nat)
    requires
        n < i * i,
        i >= 2,
        forall|k: nat| 2 <= k < i ==> #[trigger] (n % k) != 0,
        i <= d < n,
    ensures
        n % d != 0,
{
    if n % d == 0 {
        let e = n / d;
        vstd::arithmetic::div_mod::lemma_fundamental_div_mod(n as int, d as int);
        assert(n == d * e);
        assert(e >= 2) by (nonlinear_arith)
            requires
                n == d * e,
                d < n,
        ;
        assert(e < i) by (nonlinear_arith)
            requires
                n == d * e,
                n < i * i,
                i <= d,
        ;
        vstd::arithmetic::div_mod::lemma_mod_multiples_basic(d as int, e as int);
        assert(n == d * e);
        assert(n % e == 0);
        assert((n % e) != 0);
    }
}

/// Whether `n` is prime, by trial division with odd numbers up to its
/// square root.
pub fn is_prime(n: u64) -> (r: bool)
    ensures
        r == prime(n as nat),
{
    if n < 2 {
        return false;
    }
    if n == 2 {
        return true;
    }
    if n % 2 == 0 {
        assert((n as nat) % 2 == 0);
        return false;
    }
    let mut i: u64 = 3;
    while i <= n / i
        invariant
            3 <= i,
            i % 2 == 1,
            n % 2 == 1,
            n >= 3,
            forall|d: nat| 2 <= d < i ==> #[trigger] ((n as nat) % d) != 0,
        decreases n - i,
    {
        assert(i * i <= n) by (nonlinear_arith)
            requires
                i <= n / i,
                i > 0,
        ;
        assert(i < n && i < 0x1_0000_0000) by (nonlinear_arith)
            requires
                i * i <= n,
                i >= 3,
                n <= u64::MAX,
        ;
        if n % i == 0 {
            assert(((n as nat) % (i as nat)) == 0);
            return false;
        }
        proof { lemma_odd_has_no_even_divisor(n as nat, (i + 1) as nat); }
        i = i + 2;
    }
    assert(n < i * i) by (nonlinear_arith)
        requires
            i > n / i,
            i > 0,
    ;
    assert forall|d: nat| 2 <= d < n implies #[trigger] ((n as nat) % d) != 0 by {
        if d >= i {
            lemma_no_large_divisor(n as nat, i as nat, d);
        }
    }
    true
}

/// `s` read backwards.
pub open spec fn reversed(s: Seq<char>) -> Seq<char> {
    Seq::new(s.len(), |i: int| s[s.len() - 1 - i])
}

/// The characters of `s` in reverse order.
pub fn reverse_string(s: &str) -> (r: String)
    ensures
        r@ == reversed(s@),
{
    let cs = chars_of(s);
    let mut out = String::new();
    let mut i: usize = cs.len();
    while i > 0
        invariant
            i <= cs@.len(),
            cs@ == s@,
            out@ == reversed(s@).take(cs@.len() - i),
        decreases i,
    {
        i = i - 1;
        push_char(&mut out, cs[i]);
        assert(out@ =~= reversed(s@).take(cs@.len() - i));
    }
    assert(out@ =~= reversed(s@));
    out
}

/// Holds of an alphanumeric character.
pub open spec fn is_alnum() -> spec_fn(char) -> bool {
    |c: char| alphanumeric(c)
}

/// The alphanumeric characters of `s`, each replaced by the first character
/// of its lowercase mapping.
pub open spec fn cleaned(s: Seq<char>) -> Seq<char> {
    s.filter(is_alnum()).map_values(|c: char| lowercase_head(c))
}

/// Whether `s` reads the same both ways once only its alphanumeric
/// characters are kept and they are lowercased.
pub fn is_palindrome(s: &str) -> (r: bool)
    ensures
        r == (cleaned(s@) == reversed(cleaned(s@))),
{
    let cs = chars_of(s);
    let mut kept: Vec<char> = Vec::new();
    let mut i: usize = 0;
    while i < cs.len()
        invariant
            i <= cs@.len(),
            cs@ == s@,
            kept@ == cs@.take(i as int).filter(is_alnum()).map_values(|c: char| lowercase_head(c)),
        decreases cs@.len() - i,
    {
        proof {
            reveal(Seq::filter);
            assert(cs@.take(i + 1).drop_last() =~= cs@.take(i as int));
        }
        let c = cs[i];
        if is_alphanumeric(c) {
            let lower = first_lowercase(c);
            kept.push(lower);
            let ghost f = cs@.take(i as int).filter(is_alnum());
            assert(f.push(c).map_values(|c: char| lowercase_head(c)) =~= f.map_values(
                |c: char| lowercase_head(c),
            ).push(lower));
        }
        i = i + 1;
    }
    assert(cs@.take(i as int) =~= cs@);
    let n = kept.len();
    let mut j: usize = 0;
    while j < n
        invariant
            n == kept@.len(),
            kept@ == cleaned(s@),
            j <= n,
            forall|m: int| 0 <= m < j ==> #[trigger] kept@[m] == kept@[n - 1 - m],
        decreases n - j,
    {
        if kept[j] != kept[n - 1 - j] {
            assert(reversed(kept@)[j as int] != kept@[j as int]);
            return false;
        }
        j = j + 1;
    }
    assert(kept@ =~= reversed(kept@));
    true
}

/// The number of maximal runs of non-whitespace characters in `s`.
pub open spec fn word_count(s: Seq<char>) -> nat
    decreases s.len(),
{
    if s.len() == 0 {
        0
    } else {
        let starts_word = !white_space(s.last()) && (s.len() == 1 || white_space(
            s[s.len() - 2],
        ));
        word_count(s.drop_last()) + if starts_word {
            1nat
        } else {
            0
        }
    }
}

/// The number of whitespace-separated words in `text`.
pub fn count_words(text: &str) -> (r: usize)
    ensures
        r == word_count(text@),
{
    let cs = chars_of(text);
    let mut count: usize = 0;
    let mut prev_space = true;
    let mut i: usize = 0;
    while i < cs.len()
        invariant
            i <= cs@.len(),
            cs@ == text@,
            count == word_count(cs@.take(i as int)),
            count <= i,
            prev_space == (i == 0 || white_space(cs@[i - 1])),
        decreases cs@.len() - i,
    {
        assert(cs@.take(i + 1).drop_last() =~= cs@.take(i as int));
        let space = is_whitespace(cs[i]);
        if !space && prev_space {
            count = count + 1;
        }
        prev_space = space;
        i = i + 1;
    }
    assert(cs@.take(i as int) =~= cs@);
    count
}

/// The number of bytes that UTF-8 takes for `c`.
pub open spec fn utf8_width(c: char) -> nat {
    let u = c as u32;
    if u < 0x80 {
        1
    } else if u < 0x800 {
        2
    } else if u < 0x10000 {
        3
    } else {
        4
    }
}

/// The length of `s` in UTF-8, in bytes.
pub open spec fn utf8_len(s: Seq<char>) -> nat
    decreases s.len(),
{
    if s.len() == 0 {
        0
    } else {
        utf8_len(s.drop_last()) + utf8_width(s.last())
    }
}

/// The UTF-8 length of `cs[lo..hi]`, or `cap + 1` where it exceeds `cap`.
fn utf8_len_capped(cs: &Vec<char>, lo: usize, hi: usize, cap: usize) -> (r: usize)
    requires
        lo <= hi <= cs@.len(),
        cap < 1000,
    ensures
        r == if utf8_len(cs@.subrange(lo as int, hi as int)) > cap {
            (cap + 1) as nat
        } else {
            utf8_len(cs@.subrange(lo as int, hi as int))
        },
{
    let mut total: usize = 0;
    let mut i: usize = lo;
    while i < hi
        invariant
            lo <= i <= hi <= cs@.len(),
            cap < 1000,
            total == if utf8_len(cs@.subrange(lo as int, i as int)) > cap {
                (cap + 1) as nat
            } else {
                utf8_len(cs@.subrange(lo as int, i as int))
            },
        decreases hi - i,
    {
        assert(cs@.subrange(lo as int, i + 1).drop_last() =~= cs@.subrange(lo as int, i as int));
        let u = cs[i] as u32;
        let width: usize = if u < 0x80 {
            1
        } else if u < 0x800 {
            2
        } else if u < 0x10000 {
            3
        } else {
            4
        };
        total = if total + width > cap {
            cap + 1
        } else {
            total + width
        };
        i = i + 1;
    }
    total
}

/// A character allowed before the '@'.
pub open spec fn local_char_ok(c: char) -> bool {
    alphanumeric(c) || c == '.' || c == '_' || c == '-' || c == '+'
}

/// A character allowed after the '@'.
pub open spec fn domain_char_ok(c: char) -> bool {
    alphanumeric(c) || c == '.' || c == '-'
}

/// Not empty, no '.' at either end and no two '.' in a row.
pub open spec fn dots_ok(p: Seq<char>) -> bool {
    &&& p.len() > 0
    &&& p[0] != '.'
    &&& p[p.len() - 1] != '.'
    &&& forall|i: int| 0 <= i < p.len() - 1 ==> !(#[trigger] p[i] == '.' && p[i + 1] == '.')
}

/// The only '@' of `s` stands at `k`.
pub open spec fn sole_at_sign(s: Seq<char>, k: int) -> bool {
    &&& 0 <= k < s.len()
    &&& s[k] == '@'
    &&& forall|j: int| 0 <= j < s.len() && j != k ==> #[trigger] s[j] != '@'
}

/// The part before the '@' is at most 64 bytes of allowed characters; the
/// part after it is at most 253 bytes of allowed characters and holds a '.'.
pub open spec fn email_parts_ok(local: Seq<char>, domain: Seq<char>) -> bool {
    &&& dots_ok(local)
    &&& utf8_len(local) <= 64
    &&& forall|i: int| 0 <= i < local.len() ==> #[trigger] local_char_ok(local[i])
    &&& dots_ok(domain)
    &&& utf8_len(domain) <= 253
    &&& domain.contains('.')
    &&& forall|i: int| 0 <= i < domain.len() ==> #[trigger] domain_char_ok(domain[i])
}

/// A plausible e-mail address: 5 to 320 bytes, exactly one '@', and parts
/// around it that meet `email_parts_ok`.
pub open spec fn valid_email(s: Seq<char>) -> bool {
    &&& 5 <= utf8_len(s) <= 320
    &&& exists|k: int|
        #[trigger] sole_at_sign(s, k) && email_parts_ok(s.subrange(0, k), s.subrange(k + 1, s.len() as int))
}

fn dots_ok_range(cs: &Vec<char>, lo: usize, hi: usize) -> (r: bool)
    requires
        lo <= hi <= cs@.len(),
    ensures
        r == dots_ok(cs@.subrange(lo as int, hi as int)),
{
    let ghost p = cs@.subrange(lo as int, hi as int);
    if lo == hi || cs[lo] == '.' || cs[hi - 1] == '.' {
        return false;
    }
    let mut i: usize = lo;
    while i + 1 < hi
        invariant
            lo <= i < hi <= cs@.len(),
            p == cs@.subrange(lo as int, hi as int),
            forall|m: int| 0 <= m < i - lo ==> !(#[trigger] p[m] == '.' && p[m + 1] == '.'),
        decreases hi - i,
    {
        if cs[i] == '.' && cs[i + 1] == '.' {
            assert(p[i - lo] == '.' && p[i - lo + 1] == '.');
            return false;
        }
        i = i + 1;
    }
    true
}

fn chars_ok_range(cs: &Vec<char>, lo: usize, hi: usize, local: bool) -> (r: bool)
    requires
        lo <= hi <= cs@.len(),
    ensures
        local ==> r == forall|i: int|
            0 <= i < hi - lo ==> #[trigger] local_char_ok(cs@.subrange(lo as int, hi as int)[i]),
        !local ==> r == forall|i: int|
            0 <= i < hi - lo ==> #[trigger] domain_char_ok(cs@.subrange(lo as int, hi as int)[i]),
{
    let ghost p = cs@.subrange(lo as int, hi as int);
    let mut i: usize = lo;
    while i < hi
        invariant
            lo <= i <= hi <= cs@.len(),
            p == cs@.subrange(lo as int, hi as int),
            local ==> forall|m: int| 0 <= m < i - lo ==> #[trigger] local_char_ok(p[m]),
            !local ==> forall|m: int| 0 <= m < i - lo ==> #[trigger] domain_char_ok(p[m]),
        decreases hi - i,
    {
        let c = cs[i];
        let ok = is_alphanumeric(c) || c == '.' || c == '-' || (local && (c == '_' || c == '+'));
        if !ok {
            assert(p[i - lo] == c);
            if local {
                assert(!local_char_ok(p[i - lo]));
            } else {
                assert(!domain_char_ok(p[i - lo]));
            }
            return false;
        }
        i = i + 1;
    }
    true
}

fn has_dot_range(cs: &Vec<char>, lo: usize, hi: usize) -> (r: bool)
    requires
        lo <= hi <= cs@.len(),
    ensures
        r == cs@.subrange(lo as int, hi as int).contains('.'),
{
    let ghost p = cs@.subrange(lo as int, hi as int);
    let mut i: usize = lo;
    while i < hi
        invariant
            lo <= i <= hi <= cs@.len(),
            p == cs@.subrange(lo as int, hi as int),
            forall|m: int| 0 <= m < i - lo ==> #[trigger] p[m] != '.',
        decreases hi - i,
    {
        if cs[i] == '.' {
            assert(p[i - lo] == '.');
            return true;
        }
        i = i + 1;
    }
    false
}

/// Whether `email` is a plausible e-mail address.
pub fn validate_email(email: &str) -> (r: bool)
    ensures
        r == valid_email(email@),
{
    let cs = chars_of(email);
    let len = cs.len();
    assert(cs@.subrange(0, len as int) =~= cs@);
    let n = utf8_len_capped(&cs, 0, len, 320);
    if n < 5 || n > 320 {
        return false;
    }
    let mut k: usize = 0;
    while k < len && cs[k] != '@'
        invariant
            k <= len == cs@.len(),
            forall|j: int| 0 <= j < k ==> #[trigger] cs@[j] != '@',
        decreases len - k,
    {
        k = k + 1;
    }
    if k == len {
        assert forall|k2: int| !sole_at_sign(cs@, k2) by {
            if 0 <= k2 < cs@.len() {
                assert(cs@[k2] != '@');
            }
        }
        return false;
    }
    let mut j: usize = k + 1;
    while j < len
        invariant
            k < j <= len == cs@.len(),
            cs@ == email@,
            5 <= utf8_len(email@) <= 320,
            cs@[k as int] == '@',
            forall|m: int| 0 <= m < k ==> #[trigger] cs@[m] != '@',
            forall|m: int| k < m < j ==> #[trigger] cs@[m] != '@',
        decreases len - j,
    {
        if cs[j] == '@' {
            assert forall|k2: int| !sole_at_sign(cs@, k2) by {
                if sole_at_sign(cs@, k2) {
                    if k2 != k as int {
                        assert(cs@[k as int] != '@');
                    } else {
                        assert(cs@[j as int] != '@');
                    }
                }
            }
            return false;
        }
        j = j + 1;
    }
    assert(sole_at_sign(cs@, k as int));
    assert forall|k2: int| sole_at_sign(cs@, k2) implies k2 == k by {
        if k2 != k as int {
            assert(cs@[k as int] != '@');
        }
    }
    let local_len = utf8_len_capped(&cs, 0, k, 64);
    let domain_len = utf8_len_capped(&cs, k + 1, len, 253);
    let ok = dots_ok_range(&cs, 0, k) && local_len <= 64 && chars_ok_range(&cs, 0, k, true)
        && dots_ok_range(&cs, k + 1, len) && domain_len <= 253 && has_dot_range(&cs, k + 1, len)
        && chars_ok_range(&cs, k + 1, len, false);
    assert(ok == email_parts_ok(cs@.subrange(0, k as int), cs@.subrange(k + 1, len as int)));
    ok
}

} // verus!
