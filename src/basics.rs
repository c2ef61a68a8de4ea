//! Small numeric and string helpers.
use vstd::prelude::*;
use vstd::string::StrSliceExecFns;

verus! {

/// Whether `num` is divisible by two.
#[allow(non_snake_case)]
pub fn isEven(num: i32) -> (r: bool)
    ensures
        r == (num % 2 == 0),
{
    num % 2 == 0
}

/// The Fibonacci sequence: 0, 1, 1, 2, 3, 5, ...
pub open spec fn fib_spec(n: nat) -> nat
    decreases n,
{
    if n < 2 {
        n
    } else {
        fib_spec((n - 1) as nat) + fib_spec((n - 2) as nat)
    }
}

proof fn lemma_fib_monotone(i: nat, j: nat)
    requires
        i <= j,
    ensures
        fib_spec(i) <= fib_spec(j),
    decreases j,
{
    if i < j {
        lemma_fib_monotone(i, (j - 1) as nat);
        if j >= 2 {
            assert(fib_spec(j) == fib_spec((j - 1) as nat) + fib_spec((j - 2) as nat));
        }
    }
}

proof fn lemma_fib_47_fits()
    ensures
        fib_spec(47) <= u32::MAX,
{
    reveal_with_fuel(fib_spec, 2);
    assert(fib_spec(2) == 1);
    assert(fib_spec(3) == 2);
    assert(fib_spec(4) == 3);
    assert(fib_spec(5) == 5);
    assert(fib_spec(6) == 8);
    assert(fib_spec(7) == 13);
    assert(fib_spec(8) == 21);
    assert(fib_spec(9) == 34);
    assert(fib_spec(10) == 55);
    assert(fib_spec(11) == 89);
    assert(fib_spec(12) == 144);
    assert(fib_spec(13) == 233);
    assert(fib_spec(14) == 377);
    assert(fib_spec(15) == 610);
    assert(fib_spec(16) == 987);
    assert(fib_spec(17) == 1597);
    assert(fib_spec(18) == 2584);
    assert(fib_spec(19) == 4181);
    assert(fib_spec(20) == 6765);
    assert(fib_spec(21) == 10946);
    assert(fib_spec(22) == 17711);
    assert(fib_spec(23) == 28657);
    assert(fib_spec(24) == 46368);
    assert(fib_spec(25) == 75025);
    assert(fib_spec(26) == 121393);
    assert(fib_spec(27) == 196418);
    assert(fib_spec(28) == 317811);
    assert(fib_spec(29) == 514229);
    assert(fib_spec(30) == 832040);
    assert(fib_spec(31) == 1346269);
    assert(fib_spec(32) == 2178309);
    assert(fib_spec(33) == 3524578);
    assert(fib_spec(34) == 5702887);
    assert(fib_spec(35) == 9227465);
    assert(fib_spec(36) == 14930352);
    assert(fib_spec(37) == 24157817);
    assert(fib_spec(38) == 39088169);
    assert(fib_spec(39) == 63245986);
    assert(fib_spec(40) == 102334155);
    assert(fib_spec(41) == 165580141);
    assert(fib_spec(42) == 267914296);
    assert(fib_spec(43) == 433494437);
    assert(fib_spec(44) == 701408733);
    assert(fib_spec(45) == 1134903170);
    assert(fib_spec(46) == 1836311903);
    assert(fib_spec(47) == 2971215073);
}

/// `fib(0) == 0` and `fib(1) == 1`; from 2 on, the sequence 0, 1, 1, 2, 3, 5, ...
/// counted from one, so that `fib(num) == fib_spec(num - 1)`. The largest
/// input is 48, whose result 2971215073 is the last that fits a `u32`.
pub fn fib(num: u32) -> (r: u32)
    requires
        num <= 48,
    ensures
        num <= 1 ==> r == num,
        num >= 2 ==> r == fib_spec((num - 1) as nat),
{
    if num <= 1 {
        return num;
    }
    proof {
        lemma_fib_47_fits();
    }
    let mut first: u32 = 0;
    let mut second: u32 = 1;
    let mut i: u32 = 1;
    while i < num - 1
        invariant
            1 <= i <= num - 1,
            2 <= num <= 48,
            fib_spec(47) <= u32::MAX,
            first == fib_spec((i - 1) as nat),
            second == fib_spec(i as nat),
        decreases num - i,
    {
        proof {
            lemma_fib_monotone((i + 1) as nat, 47);
        }
        let next = first + second;
        first = second;
        second = next;
        i = i + 1;
    }
    second
}

/// The number of characters (not bytes) in `s`.
pub fn get_st_length(s: String) -> (r: usize)
    ensures
        r == s@.len(),
{
    s.as_str().unicode_len()
}

/// The index of the first `'a'` in `s`, if any. That index must fit an `i32`.
pub fn find_letter_a(s: String) -> (r: Option<i32>)
    requires
        forall|i: int|
            0 <= i < s@.len() && #[trigger] s@[i] == 'a' && (forall|j: int| 0 <= j < i ==> s@[j] != 'a')
                ==> i <= i32::MAX,
    ensures
        match r {
            Some(i) => 0 <= i < s@.len() && s@[i as int] == 'a' && forall|j: int|
                0 <= j < i ==> s@[j] != 'a',
            None => forall|j: int| 0 <= j < s@.len() ==> s@[j] != 'a',
        },
{
    let t = s.as_str();
    let n = t.unicode_len();
    let mut i: usize = 0;
    while i < n
        invariant
            n == s@.len(),
            t@ == s@,
            forall|k: int|
                0 <= k < s@.len() && #[trigger] s@[k] == 'a' && (forall|j: int| 0 <= j < k ==> s@[j] != 'a')
                    ==> k <= i32::MAX,
            i <= n,
            forall|j: int| 0 <= j < i ==> s@[j] != 'a',
        decreases n - i,
    {
        if t.get_char(i) == 'a' {
            return Some(i as i32);
        }
        i = i + 1;
    }
    None
}

} // verus!
