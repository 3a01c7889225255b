use vstd::arithmetic::power2;
use vstd::layout;
use vstd::prelude::*;

verus! {

/// Types with a zero value, with which buffers are filled at first.
pub trait Zeroable: Sized {
    spec fn zero_value() -> Self;

    fn zero() -> (r: Self)
        ensures
            r == Self::zero_value(),
    ;
}

impl Zeroable for u8 {
    open spec fn zero_value() -> u8 {
        0
    }

    fn zero() -> u8 {
        0
    }
}

impl Zeroable for u16 {
    open spec fn zero_value() -> u16 {
        0
    }

    fn zero() -> u16 {
        0
    }
}

impl Zeroable for u32 {
    open spec fn zero_value() -> u32 {
        0
    }

    fn zero() -> u32 {
        0
    }
}

impl Zeroable for u64 {
    open spec fn zero_value() -> u64 {
        0
    }

    fn zero() -> u64 {
        0
    }
}

impl Zeroable for u128 {
    open spec fn zero_value() -> u128 {
        0
    }

    fn zero() -> u128 {
        0
    }
}

impl Zeroable for usize {
    open spec fn zero_value() -> usize {
        0
    }

    fn zero() -> usize {
        0
    }
}

impl Zeroable for i8 {
    open spec fn zero_value() -> i8 {
        0
    }

    fn zero() -> i8 {
        0
    }
}

impl Zeroable for i16 {
    open spec fn zero_value() -> i16 {
        0
    }

    fn zero() -> i16 {
        0
    }
}

impl Zeroable for i32 {
    open spec fn zero_value() -> i32 {
        0
    }

    fn zero() -> i32 {
        0
    }
}

impl Zeroable for i64 {
    open spec fn zero_value() -> i64 {
        0
    }

    fn zero() -> i64 {
        0
    }
}

impl Zeroable for i128 {
    open spec fn zero_value() -> i128 {
        0
    }

    fn zero() -> i128 {
        0
    }
}

impl Zeroable for isize {
    open spec fn zero_value() -> isize {
        0
    }

    fn zero() -> isize {
        0
    }
}

impl Zeroable for bool {
    open spec fn zero_value() -> bool {
        false
    }

    fn zero() -> bool {
        false
    }
}

impl Zeroable for char {
    open spec fn zero_value() -> char {
        '\0'
    }

    fn zero() -> char {
        '\0'
    }
}

impl<T: Zeroable + Copy, const N: usize> Zeroable for [T; N] {
    open spec fn zero_value() -> [T; N] {
        choose|a: [T; N]| #[trigger] a@ == Seq::new(N as nat, |i: int| T::zero_value())
    }

    fn zero() -> (r: [T; N])
        ensures
            r@.len() == N,
            forall|i: int| 0 <= i < N ==> #[trigger] r@[i] == T::zero_value(),
    {
        let r = [T::zero(); N];
        proof {
            assert(r@ =~= Seq::new(N as nat, |i: int| T::zero_value()));
            assert(r =~= Self::zero_value());
        }
        r
    }
}

/// The zero value of a number is zero.
pub proof fn law_zero_values()
    ensures
        u8::zero_value() == 0,
        u16::zero_value() == 0,
        u32::zero_value() == 0,
        u64::zero_value() == 0,
        u128::zero_value() == 0,
        usize::zero_value() == 0,
        i8::zero_value() == 0,
        i16::zero_value() == 0,
        i32::zero_value() == 0,
        i64::zero_value() == 0,
        i128::zero_value() == 0,
        isize::zero_value() == 0,
        !bool::zero_value(),
        char::zero_value() == '\0',
{
}

/// Whether `n` is a power of two that a machine word can hold: it divides the
/// greatest of them.
pub open spec fn power_of_two(n: int) -> bool {
    n > 0 && 0x8000_0000_0000_0000int % n == 0
}

/// The divisors of a power of two are the powers of two up to it.
proof fn lemma_divisors_of_pow2(k: nat, n: int)
    requires
        n > 0,
    ensures
        power2::pow2(k) as int % n == 0 <==> power2::is_pow2(n) && n <= power2::pow2(k),
    decreases k,
{
    reveal(power2::is_pow2);
    reveal(power2::pow2);
    let whole = power2::pow2(k) as int;
    power2::lemma_pow2_pos(k);
    if k == 0 {
        power2::lemma2_to64();
        assert(1int % n == 0 <==> n == 1) by (nonlinear_arith)
            requires
                n > 0,
        ;
    } else {
        let m = (k - 1) as nat;
        let half = power2::pow2(m) as int;
        power2::lemma_pow2_pos(m);
        power2::lemma_pow2_unfold(k);
        assert(whole == 2 * half);
        if n % 2 == 0 {
            lemma_divisors_of_pow2(m, n / 2);
            assert(n == 2 * (n / 2));
            vstd::arithmetic::div_mod::lemma_truncate_middle(half, 2, n / 2);
        } else {
            lemma_divisors_of_pow2(m, n);
            if (2 * half) % n == 0 {
                let q = (2 * half) / n;
                assert(2 * half == q * n) by (nonlinear_arith)
                    requires
                        (2 * half) % n == 0,
                        q == (2 * half) / n,
                        n > 0,
                ;
                if q % 2 == 1 {
                    let a = q / 2;
                    let b = n / 2;
                    assert(q * n == 2 * (2 * a * b + a + b) + 1) by (nonlinear_arith)
                        requires
                            q == 2 * a + 1,
                            n == 2 * b + 1,
                    ;
                    assert(false);
                }
                assert(half == (q / 2) * n) by (nonlinear_arith)
                    requires
                        2 * half == q * n,
                        q % 2 == 0,
                ;
                assert(half % n == 0) by (nonlinear_arith)
                    requires
                        half == (q / 2) * n,
                        n > 0,
                ;
            }
            if n == 1 {
                assert((2 * half) % 1 == 0);
            }
        }
    }
}

/// The powers of two that a machine word can hold are all the powers of two
/// among its values.
pub proof fn law_powers_of_two(n: usize)
    ensures
        power_of_two(n as int) <==> power2::is_pow2(n as int),
{
    reveal(power2::is_pow2);
    if n > 0 {
        power2::lemma2_to64_rest();
        lemma_divisors_of_pow2(63, n as int);
        if power2::is_pow2(n as int) && n > 0x8000_0000_0000_0000 {
            power2::lemma2_to64();
            power2::lemma2_to64_rest();
            lemma_no_pow2_between(n as int, 63);
        }
    }
}

/// No power of two lies between two neighbours.
proof fn lemma_no_pow2_between(n: int, k: nat)
    requires
        power2::pow2(k) < n < power2::pow2(k + 1),
    ensures
        !power2::is_pow2(n),
    decreases k,
{
    reveal(power2::is_pow2);
    power2::lemma_pow2_pos(k);
    power2::lemma_pow2_unfold(k + 1);
    if k == 0 {
        power2::lemma2_to64();
    } else {
        power2::lemma_pow2_unfold(k);
        if n % 2 == 0 {
            lemma_no_pow2_between(n / 2, (k - 1) as nat);
        }
    }
}

/// Whether `n` is a power of two.
pub fn is_power_of_two(n: usize) -> (r: bool)
    ensures
        r == power_of_two(n as int),
{
    proof {
        law_powers_of_two(n);
    }
    reveal(power2::is_pow2);
    let mut m: usize = n;
    while m > 1
        invariant
            power2::is_pow2(n as int) == power_of_two(n as int),
            power2::is_pow2(n as int) == power2::is_pow2(m as int),
        decreases m,
    {
        reveal(power2::is_pow2);
        if m % 2 != 0 {
            return false;
        }
        m = m / 2;
    }
    m == 1
}

/// Calls `as_ptr` of std's slices: the address of the first of `items`. It is a
/// multiple of the alignment of the items, and the items end within the address
/// space. Nothing else is claimed of it.
#[verifier::external_body]
fn address_of<T>(items: &[T]) -> (r: usize)
    ensures
        r as nat % layout::align_of::<T>() == 0,
        r + items@.len() * layout::size_of::<T>() <= usize::MAX,
{
    items.as_ptr() as usize
}

/// Whether `k` items of `size` bytes after the address `addr` there is a multiple
/// of `align`.
pub open spec fn lands(addr: int, k: int, size: int, align: int) -> bool {
    (addr + k * size) % align == 0
}

/// What it is to land on a multiple of `align`.
pub proof fn law_what_landing_is(addr: int, k: int, size: int, align: int, q: int)
    requires
        align > 0,
    ensures
        lands(addr, k, size, align) <==> (addr + k * size) % align == 0,
        addr + k * size == q * align ==> lands(addr, k, size, align),
{
    if addr + k * size == q * align {
        vstd::arithmetic::div_mod::lemma_mod_multiples_basic(q, align);
    }
}

/// The least number of items of `size` bytes, `spare` at most, after which there
/// is a multiple of `align`, from the address `addr` on, if there is one.
pub fn aligned_start(addr: usize, size: usize, align: usize, spare: usize) -> (r: Option<usize>)
    requires
        align > 0,
    ensures
        match r {
            Some(k) => {
                &&& k <= spare
                &&& lands(addr as int, k as int, size as int, align as int)
                &&& forall|j: int|
                    0 <= j < k ==> !#[trigger] lands(addr as int, j, size as int, align as int)
            },
            None => forall|k: int|
                0 <= k <= spare ==> !#[trigger] lands(addr as int, k, size as int, align as int),
        },
{
    let step: usize = size % align;
    let mut rest: usize = addr % align;
    let mut k: usize = 0;
    assert(0 * size == 0) by (nonlinear_arith);
    loop
        invariant
            k <= spare,
            align > 0,
            step == size % align,
            rest < align,
            rest == (addr + k * size) % (align as int),
            forall|j: int|
                0 <= j < k ==> !#[trigger] lands(addr as int, j, size as int, align as int),
        decreases spare - k,
    {
        assert(lands(addr as int, k as int, size as int, align as int) == (rest == 0));
        if rest == 0 {
            return Some(k);
        }
        if k == spare {
            return None;
        }
        proof {
            let here = addr + k * size;
            vstd::arithmetic::div_mod::lemma_add_mod_noop(here, size as int, align as int);
            assert((k + 1) * size == k * size + size) by (nonlinear_arith);
            if rest + step >= align {
                vstd::arithmetic::div_mod::lemma_mod_sub_multiples_vanish(
                    rest + step,
                    align as int,
                );
                vstd::arithmetic::div_mod::lemma_small_mod(
                    (rest + step - align) as nat,
                    align as nat,
                );
            } else {
                vstd::arithmetic::div_mod::lemma_small_mod((rest + step) as nat, align as nat);
            }
        }
        rest = if rest >= align - step {
            rest - (align - step)
        } else {
            rest + step
        };
        k = k + 1;
    }
}

/// Of two powers of two the lesser divides the greater.
proof fn lemma_pow2_divides(a: int, b: int)
    requires
        power2::is_pow2(a),
        power2::is_pow2(b),
        0 < a <= b,
    ensures
        b % a == 0,
    decreases a,
{
    reveal(power2::is_pow2);
    if a > 1 {
        lemma_pow2_divides(a / 2, b / 2);
        assert(a == 2 * (a / 2) && b == 2 * (b / 2));
        vstd::arithmetic::div_mod::lemma_truncate_middle(b / 2, 2, a / 2);
    }
}

/// Steps of an odd number of bytes reach a multiple of any power of two.
proof fn lemma_odd_steps_land(addr: int, size: int, align: int)
    requires
        power2::is_pow2(align),
        align > 0,
        size % 2 == 1,
    ensures
        exists|k: int| 0 <= k < align && #[trigger] lands(addr, k, size, align),
    decreases align,
{
    reveal(power2::is_pow2);
    if align == 1 {
        assert(lands(addr, 0, size, align));
    } else {
        let half = align / 2;
        lemma_odd_steps_land(addr, size, half);
        let k = choose|k: int| 0 <= k < half && #[trigger] lands(addr, k, size, half);
        let x = addr + k * size;
        let q = x / half;
        assert(x == half * q) by (nonlinear_arith)
            requires
                x % half == 0,
                q == x / half,
                half > 0,
        ;
        if q % 2 == 0 {
            let m = q / 2;
            assert(x == m * align) by (nonlinear_arith)
                requires
                    x == half * q,
                    q == 2 * m,
                    align == 2 * half,
            ;
            vstd::arithmetic::div_mod::lemma_mod_multiples_basic(m, align);
            assert(lands(addr, k, size, align));
        } else {
            let y = addr + (k + half) * size;
            assert(y == half * (q + size)) by (nonlinear_arith)
                requires
                    x == addr + k * size,
                    y == addr + (k + half) * size,
                    x == half * q,
            ;
            let m = (q + size) / 2;
            assert(q + size == 2 * m);
            assert(y == m * align) by (nonlinear_arith)
                requires
                    y == half * (2 * m),
                    align == 2 * half,
            ;
            vstd::arithmetic::div_mod::lemma_mod_multiples_basic(m, align);
            assert(lands(addr, k + half, size, align));
        }
    }
}

/// The greatest power of two, `align` at most, that divides `size`, where `align`
/// is a power of two.
pub open spec fn shared_power(size: nat, align: nat) -> nat
    decreases align,
{
    if align <= 1 || size % 2 != 0 {
        1
    } else {
        2 * shared_power(size / 2, align / 2)
    }
}

/// The greatest power of two that divides `size`, `align` at most, is `common`
/// where what is left is odd or `align` itself is reached.
proof fn lemma_shared_power(size: nat, align: nat, common: nat)
    requires
        power2::is_pow2(align as int),
        power2::is_pow2(common as int),
        0 < common <= align,
        size % common == 0,
        (size / common) % 2 == 1 || common == align,
    ensures
        shared_power(size, align) == common,
    decreases common,
{
    reveal(power2::is_pow2);
    if common == 1 {
        assert(size / 1 == size);
    } else {
        let half = common / 2;
        let q = size / common;
        assert(common == 2 * half && align == 2 * (align / 2));
        assert(size == common * q) by (nonlinear_arith)
            requires
                size % common == 0,
                q == size / common,
                common > 0,
        ;
        assert(size == 2 * (half * q)) by (nonlinear_arith)
            requires
                size == common * q,
                common == 2 * half,
        ;
        assert(size / 2 == half * q);
        vstd::arithmetic::div_mod::lemma_div_multiples_vanish(q as int, half as int);
        vstd::arithmetic::div_mod::lemma_mod_multiples_basic(q as int, half as int);
        assert(half * q == q * half) by (nonlinear_arith);
        lemma_shared_power(size / 2, align / 2, half);
    }
}

/// It divides both numbers, and twice as much does not.
proof fn lemma_shared_power_is_greatest(size: nat, align: nat)
    requires
        power2::is_pow2(align as int),
        align > 0,
    ensures
        size as int % shared_power(size, align) as int == 0,
        align as int % shared_power(size, align) as int == 0,
        shared_power(size, align) == align || (size as int / shared_power(size, align) as int) % 2
            == 1,
    decreases align,
{
    reveal(power2::is_pow2);
    if align > 1 && size % 2 == 0 {
        lemma_shared_power_is_greatest(size / 2, align / 2);
        lemma_shared_power_is_pow2(size / 2, align / 2);
        let part = shared_power(size / 2, align / 2) as int;
        assert(size as int == 2 * (size as int / 2));
        assert(align as int == 2 * (align as int / 2));
        vstd::arithmetic::div_mod::lemma_truncate_middle(size as int / 2, 2, part);
        vstd::arithmetic::div_mod::lemma_truncate_middle(align as int / 2, 2, part);
        vstd::arithmetic::div_mod::lemma_div_denominator(size as int, 2, part);
    } else {
        assert(size as int % 1 == 0 && size as int / 1 == size);
        assert(align as int % 1 == 0);
    }
}

/// It is a power of two.
proof fn lemma_shared_power_is_pow2(size: nat, align: nat)
    requires
        power2::is_pow2(align as int),
        align > 0,
    ensures
        power2::is_pow2(shared_power(size, align) as int),
        0 < shared_power(size, align) <= align,
    decreases align,
{
    reveal(power2::is_pow2);
    if align > 1 && size % 2 == 0 {
        lemma_shared_power_is_pow2(size / 2, align / 2);
        let part = shared_power(size / 2, align / 2) as int;
        assert((2 * part) / 2 == part);
        assert((2 * part) % 2 == 0);
    }
}

/// From a multiple of the greatest power of two that divides `size`, `align` at
/// most, steps of `size` bytes reach a multiple of `align`.
proof fn lemma_steps_land(addr: int, size: nat, align: nat)
    requires
        power2::is_pow2(align as int),
        align > 0,
        addr >= 0,
        addr % (shared_power(size, align) as int) == 0,
    ensures
        exists|k: int|
            0 <= k < align as int / shared_power(size, align) as int && #[trigger] lands(
                addr,
                k,
                size as int,
                align as int,
            ),
    decreases align,
{
    reveal(power2::is_pow2);
    if align <= 1 {
        assert(lands(addr, 0, size as int, align as int));
    } else if size % 2 != 0 {
        lemma_odd_steps_land(addr, size as int, align as int);
    } else {
        let part = shared_power(size / 2, align / 2) as int;
        lemma_shared_power_is_pow2(size / 2, align / 2);
        let q = addr / (2 * part);
        assert(addr == 2 * part * q) by (nonlinear_arith)
            requires
                addr % (2 * part) == 0,
                q == addr / (2 * part),
                part > 0,
        ;
        assert(2 * part * q == 2 * (part * q)) by (nonlinear_arith);
        assert(addr / 2 == part * q);
        assert(part * q == q * part) by (nonlinear_arith);
        vstd::arithmetic::div_mod::lemma_mod_multiples_basic(q, part);
        lemma_steps_land(addr / 2, size / 2, align / 2);
        let k = choose|k: int|
            0 <= k < (align / 2) as int / part && #[trigger] lands(
                addr / 2,
                k,
                (size / 2) as int,
                (align / 2) as int,
            );
        vstd::arithmetic::div_mod::lemma_div_denominator(align as int, 2, part);
        let x = addr / 2 + k * (size / 2);
        assert(addr + k * size == 2 * x) by (nonlinear_arith)
            requires
                x == addr / 2 + k * (size / 2),
                addr == 2 * (addr / 2),
                size == 2 * (size / 2),
        ;
        assert(x >= 0) by (nonlinear_arith)
            requires
                x == addr / 2 + k * (size / 2),
                addr >= 0,
                k >= 0,
        ;
        vstd::arithmetic::div_mod::lemma_truncate_middle(x, 2, (align / 2) as int);
        assert(lands(addr, k, size as int, align as int));
    }
}

fn shared_power_exec(size: usize, align: usize) -> (r: usize)
    requires
        align > 0,
    ensures
        r == shared_power(size as nat, align as nat),
        1 <= r <= align,
    decreases align,
{
    if align <= 1 || size % 2 != 0 {
        1
    } else {
        2 * shared_power_exec(size / 2, align / 2)
    }
}

/// By how many items of `size` bytes one has to go on at most to come to an
/// address that is a multiple of `align`, where that can be reached at all.
fn spare_items(size: usize, align: usize) -> (r: usize)
    requires
        align > 0,
    ensures
        r == align as nat / shared_power(size as nat, align as nat) - 1,
{
    let common: usize = shared_power_exec(size, align);
    let period: usize = align / common;
    assert(period >= 1) by (nonlinear_arith)
        requires
            period == align / common,
            0 < common <= align,
    ;
    period - 1
}

/// A buffer of a fixed number of items, all of them valid from the start, with a
/// cursor that says how many are meaningful. Its view is the sequence of the
/// meaningful ones.
///
/// The items stand in a `Vec` that is never resized, so they stay at the address
/// at which they were found when the buffer was made.
pub struct AlignedBuffer<T: Zeroable + Copy> {
    data: Vec<T>,
    start: usize,
    address: usize,
    cap: usize,
    len: usize,
    align: usize,
}

impl<T: Zeroable + Copy> View for AlignedBuffer<T> {
    type V = Seq<T>;

    closed spec fn view(&self) -> Seq<T> {
        self.mem().take(self.len as int)
    }
}

impl<T: Zeroable + Copy> AlignedBuffer<T> {
    pub closed spec fn wf(self) -> bool {
        &&& self.start + self.cap <= self.data@.len()
        &&& self.len <= self.cap
        &&& self.found()
        &&& self.placed()
    }

    /// Whether the address is where std said that the items lie.
    spec fn found(self) -> bool {
        exists|items: &[T], first: usize|
            {
                &&& #[trigger] call_ensures(address_of::<T>, (items,), first)
                &&& items@.len() == self.data@.len()
                &&& self.address == first + self.start * layout::size_of::<T>()
            }
    }

    /// The address of the first item.
    pub closed spec fn address(self) -> usize {
        self.address
    }

    /// How many items more than `capacity` are allocated to reach a multiple of
    /// `align`: as many as can be needed, or as many as there can be.
    pub open spec fn spare(capacity: int, align: int) -> int {
        let size = layout::size_of::<T>();
        let needed = align / shared_power(size, align as nat) as int - 1;
        let room = isize::MAX as int / size as int - capacity;
        if needed <= room {
            needed
        } else {
            room
        }
    }

    /// Whether a multiple of `align` is sure to be reached by whole items: their
    /// size is an odd multiple of their own alignment, or `align` is their own
    /// alignment; and what has to be allocated for that is no more than there can
    /// be. A byte is such an item, and so is a number whose alignment is its size.
    ///
    /// An item whose size is an even multiple of its own alignment is not, where
    /// `align` is greater than that: steps of a whole `[u8; 4096]` reach a multiple
    /// of 4096 only from one.
    pub open spec fn placeable(capacity: int, align: int) -> bool {
        let size = layout::size_of::<T>();
        let common = shared_power(size, align as nat);
        &&& common <= layout::align_of::<T>()
        &&& Self::spare(capacity, align) == align / common as int - 1
    }

    /// Whether the first item lies at a multiple of the alignment, where one is
    /// sure to be reached.
    pub open spec fn placed(self) -> bool {
        Self::placeable(self.mem().len() as int, self.align() as int) ==> self.address() as int
            % self.align() as int == 0
    }

    /// All items, meaningful or not.
    pub closed spec fn mem(self) -> Seq<T> {
        self.data@.subrange(self.start as int, self.start + self.cap)
    }

    /// The alignment in bytes that the buffer was made with.
    pub closed spec fn align(self) -> usize {
        self.align
    }

    /// Whether a buffer of `capacity` items with their own alignment can be made:
    /// there are items, they take up space, and the number of bytes does not
    /// overflow.
    pub open spec fn fits_items(capacity: int) -> bool {
        &&& capacity > 0
        &&& layout::size_of::<T>() != 0
        &&& capacity * layout::size_of::<T>() <= isize::MAX
    }

    /// Whether a buffer of `capacity` items with alignment `align` can be made:
    /// there are items and they take up space, the alignment is a power of two
    /// and not below that of the items (which is never above their size), and the
    /// number of bytes does not overflow when it is rounded up to the alignment.
    pub open spec fn fits(capacity: int, align: int) -> bool {
        &&& capacity > 0
        &&& layout::size_of::<T>() != 0
        &&& power_of_two(align)
        &&& align >= layout::size_of::<T>() || align >= layout::align_of::<T>()
        &&& capacity * layout::size_of::<T>() + (align - 1) <= isize::MAX
    }

    /// The alignment of the items is not above their size.
    proof fn lemma_alignment()
        requires
            layout::size_of::<T>() != 0,
        ensures
            0 < layout::align_of::<T>() <= layout::size_of::<T>(),
    {
        vstd::arithmetic::div_mod::lemma_mod_is_zero(
            layout::size_of::<T>(),
            layout::align_of::<T>(),
        );
    }

    /// The alignment of the items always suits them.
    pub proof fn law_own_alignment_fits(capacity: int)
        ensures
            Self::fits_items(capacity) <==> Self::fits(
                capacity,
                layout::align_of::<T>() as int,
            ),
    {
        let size = layout::size_of::<T>() as int;
        let align = layout::align_of::<T>() as int;
        if Self::fits_items(capacity) {
            let bytes = capacity * size;
            let top = isize::MAX + 1;
            Self::lemma_alignment();
            assert(size <= bytes) by (nonlinear_arith)
                requires
                    bytes == capacity * size,
                    capacity >= 1,
                    size >= 0,
            ;
            power2::lemma2_to64();
            power2::lemma2_to64_rest();
            lemma_divisors_of_pow2(31, align);
            lemma_divisors_of_pow2(63, align);
            assert(top == 0x8000_0000 || top == 0x8000_0000_0000_0000);
            vstd::arithmetic::div_mod::lemma_mul_mod_noop_right(capacity, size, align);
            assert(size % align == 0);
            assert(capacity * 0 == 0);
            assert(bytes % align == 0);
            assert(bytes + align <= top) by (nonlinear_arith)
                requires
                    bytes % align == 0,
                    top % align == 0,
                    bytes < top,
                    align > 0,
            ;
        }
    }

    /// The number of meaningful items is at most that of all, and the items lie
    /// where they should.
    pub proof fn lemma_wf(self)
        requires
            self.wf(),
        ensures
            self@.len() <= self.mem().len() <= usize::MAX,
            self@ == self.mem().take(self@.len() as int),
            self.placed(),
    {
    }

    /// A multiple of `align` is sure to be reached where the size of the items is
    /// their alignment, and where `align` is.
    pub proof fn law_where_items_can_be_placed(capacity: int, align: int)
        requires
            Self::fits(capacity, align),
            layout::size_of::<T>() == layout::align_of::<T>() || align == layout::align_of::<T>(),
        ensures
            Self::placeable(capacity, align),
    {
        let size = layout::size_of::<T>() as int;
        let own = layout::align_of::<T>() as int;
        let max = isize::MAX as int;
        Self::lemma_alignment();
        Self::lemma_fits(capacity, align);
        if size == own {
            assert(own % own == 0 && own / own == 1) by (nonlinear_arith)
                requires
                    own > 0,
            ;
        }
        lemma_shared_power(size as nat, align as nat, own as nat);
        let needed = align / own - 1;
        assert(needed <= max / size - capacity) by {
            if align == own {
                assert(align / own == 1) by (nonlinear_arith)
                    requires
                        align == own,
                        own > 0,
                ;
                assert(capacity <= max / size) by (nonlinear_arith)
                    requires
                        capacity * size <= max,
                        size > 0,
                ;
            } else {
                assert(capacity + needed <= max / size) by (nonlinear_arith)
                    requires
                        capacity * size + (align - 1) <= max,
                        needed == align / size - 1,
                        size > 0,
                        align >= size,
                ;
            }
        }
    }

    /// When a buffer can be made: it has items that take up space, the alignment is a
    /// power of two and suits the items, and the bytes do not overflow when they are
    /// rounded up to it.
    pub proof fn law_when_a_buffer_can_be_made(capacity: int, align: usize)
        ensures
            Self::fits(capacity, align as int) <==> {
                &&& 0 < capacity
                &&& 0 < layout::size_of::<T>()
                &&& power2::is_pow2(align as int)
                &&& layout::align_of::<T>() <= align
                &&& capacity * layout::size_of::<T>() <= isize::MAX - (align - 1)
            },
            Self::fits_items(capacity) <==> {
                &&& 0 < capacity
                &&& 0 < layout::size_of::<T>()
                &&& capacity * layout::size_of::<T>() <= isize::MAX
            },
    {
        law_powers_of_two(align);
        reveal(power2::is_pow2);
        if layout::size_of::<T>() != 0 {
            Self::lemma_alignment();
        }
    }

    /// A multiple of `align` is sure to be reached where the size of the items is an odd
    /// multiple of their alignment, and the items that have to be spared fit.
    pub proof fn law_odd_items_can_be_placed(capacity: int, align: int)
        requires
            Self::fits(capacity, align),
            (layout::size_of::<T>() / layout::align_of::<T>()) % 2 == 1,
            (capacity + align / (layout::align_of::<T>() as int) - 1) * layout::size_of::<T>()
                <= isize::MAX,
        ensures
            Self::placeable(capacity, align),
            Self::spare(capacity, align) == align / (layout::align_of::<T>() as int) - 1,
    {
        let size = layout::size_of::<T>() as int;
        let own = layout::align_of::<T>() as int;
        let max = isize::MAX as int;
        Self::lemma_alignment();
        Self::lemma_fits(capacity, align);
        lemma_shared_power(size as nat, align as nat, own as nat);
        let needed = align / own - 1;
        assert(capacity + needed <= max / size) by (nonlinear_arith)
            requires
                (capacity + needed) * size <= max,
                size > 0,
        ;
    }

    /// As many items are spared as can be needed to reach a multiple of `align`, and fewer
    /// only where there can be no more.
    pub proof fn law_how_many_items_are_spared(capacity: int, align: int)
        requires
            Self::fits(capacity, align),
        ensures
            ({
                let size = layout::size_of::<T>() as int;
                let common = shared_power(size as nat, align as nat) as int;
                let spare = Self::spare(capacity, align);
                &&& 0 <= spare <= align / common - 1
                &&& capacity + spare <= isize::MAX as int / size
                &&& spare == align / common - 1 || capacity + spare == isize::MAX as int / size
                &&& size % common == 0
                &&& align % common == 0
                &&& common == align || (size / common) % 2 == 1
            }),
    {
        let size = layout::size_of::<T>();
        Self::lemma_fits(capacity, align);
        lemma_shared_power_is_pow2(size, align as nat);
        lemma_shared_power_is_greatest(size, align as nat);
        let common = shared_power(size, align as nat) as int;
        assert(align / common >= 1) by (nonlinear_arith)
            requires
                0 < common <= align,
        ;
    }

    /// The first item of a buffer lies at a multiple of the alignment, where one is sure
    /// to be reached.
    pub proof fn law_a_buffer_is_aligned(self)
        requires
            self.wf(),
            Self::placeable(self.mem().len() as int, self.align() as int),
        ensures
            self.address() as int % self.align() as int == 0,
    {
    }

    /// What the limits of a buffer give.
    proof fn lemma_fits(capacity: int, align: int)
        requires
            Self::fits(capacity, align),
        ensures
            power2::is_pow2(align),
            power2::is_pow2(layout::align_of::<T>() as int),
            layout::align_of::<T>() <= align <= isize::MAX,
            capacity * layout::size_of::<T>() <= isize::MAX,
            0 <= capacity <= isize::MAX as int / layout::size_of::<T>() as int,
    {
        let size = layout::size_of::<T>() as int;
        let max = isize::MAX as int;
        Self::lemma_alignment();
        assert(capacity * size >= 1) by (nonlinear_arith)
            requires
                capacity > 0,
                size > 0,
        ;
        law_powers_of_two(align as usize);
        assert(capacity <= max / size) by (nonlinear_arith)
            requires
                capacity * size <= max,
                size > 0,
        ;
    }

    /// Where a multiple of `align` is sure to be reached, the spare items are
    /// enough to reach it.
    proof fn lemma_placeable(capacity: int, align: int, first: int)
        requires
            Self::fits(capacity, align),
            Self::placeable(capacity, align),
            first >= 0,
            first % (layout::align_of::<T>() as int) == 0,
        ensures
            exists|k: int|
                0 <= k <= Self::spare(capacity, align) && #[trigger] lands(
                    first,
                    k,
                    layout::size_of::<T>() as int,
                    align,
                ),
    {
        let size = layout::size_of::<T>();
        let own = layout::align_of::<T>() as int;
        let common = shared_power(size, align as nat) as int;
        Self::lemma_alignment();
        Self::lemma_fits(capacity, align);
        lemma_shared_power_is_pow2(size, align as nat);
        lemma_pow2_divides(common, own);
        assert(first % common == 0) by (nonlinear_arith)
            requires
                first % own == 0,
                own % common == 0,
                own > 0,
                common > 0,
        {
            let p = first / own;
            let q = own / common;
            assert(first == p * own && own == q * common);
            assert(first == (p * q) * common);
        }
        lemma_steps_land(first, size, align as nat);
    }

    /// Whether a buffer of `capacity` items with alignment `align` can be made.
    pub fn layout_for(capacity: usize, align: usize) -> (r: bool)
        ensures
            r == Self::fits(capacity as int, align as int),
    {
        let size: usize = core::mem::size_of::<T>();
        proof {
            if size != 0 {
                Self::lemma_alignment();
            }
        }
        if capacity == 0 || size == 0 || !is_power_of_two(align) {
            return false;
        }
        if align < core::mem::align_of::<T>() {
            return false;
        }
        let limit: usize = isize::MAX as usize;
        match capacity.checked_mul(size) {
            Some(bytes) => bytes <= limit && align - 1 <= limit - bytes,
            None => false,
        }
    }

    /// A buffer of `capacity` items, all zero and none of them meaningful, with
    /// the alignment of the items.
    pub fn new(capacity: usize) -> (r: Self)
        requires
            Self::fits_items(capacity as int),
        ensures
            r.wf(),
            r.mem() == Seq::new(capacity as nat, |i: int| T::zero_value()),
            r@ == Seq::<T>::empty(),
            r.align() == layout::align_of::<T>(),
            r.address() as nat % layout::align_of::<T>() == 0,
    {
        proof {
            Self::law_own_alignment_fits(capacity as int);
            Self::law_where_items_can_be_placed(
                capacity as int,
                layout::align_of::<T>() as int,
            );
        }
        Self::with_alignment(capacity, core::mem::align_of::<T>())
    }

    /// How many items more than `capacity` to allocate.
    fn spare_for(capacity: usize, align: usize) -> (r: usize)
        requires
            Self::fits(capacity as int, align as int),
        ensures
            r == Self::spare(capacity as int, align as int),
    {
        let size: usize = core::mem::size_of::<T>();
        proof {
            Self::lemma_fits(capacity as int, align as int);
        }
        let limit: usize = isize::MAX as usize;
        let needed: usize = spare_items(size, align);
        let room: usize = limit / size - capacity;
        if needed <= room {
            needed
        } else {
            room
        }
    }

    /// A buffer of `capacity` items, all zero and none of them meaningful, with
    /// alignment `align`. The first item lies at a multiple of `align` where one
    /// is sure to be reached by whole items (see `placeable`). Otherwise it does
    /// where one can be reached from where the memory lies, and where none can,
    /// the items begin where the memory does.
    pub fn with_alignment(capacity: usize, align: usize) -> (r: Self)
        requires
            Self::fits(capacity as int, align as int),
        ensures
            r.wf(),
            r.mem() == Seq::new(capacity as nat, |i: int| T::zero_value()),
            r@ == Seq::<T>::empty(),
            r.align() == align,
            layout::size_of::<T>() == layout::align_of::<T>() || align == layout::align_of::<T>()
                ==> r.address() as int % align as int == 0,
            Self::placeable(capacity as int, align as int) ==> r.address() as int % align as int
                == 0,
            r.address() as int % align as int == 0 || forall|k: int|
                0 <= k <= Self::spare(capacity as int, align as int) ==> !#[trigger] lands(
                    r.address() as int,
                    k,
                    layout::size_of::<T>() as int,
                    align as int,
                ),
    {
        let size: usize = core::mem::size_of::<T>();
        let spare: usize = Self::spare_for(capacity, align);
        proof {
            Self::lemma_fits(capacity as int, align as int);
            lemma_shared_power_is_pow2(size as nat, align as nat);
            let common = shared_power(size as nat, align as nat) as int;
            assert(align as int / common >= 1) by (nonlinear_arith)
                requires
                    0 < common <= align,
            ;
        }
        let total: usize = capacity + spare;
        let mut data: Vec<T> = Vec::with_capacity(total);
        while data.len() < total
            invariant
                data@.len() <= total,
                data@ == Seq::new(data@.len(), |i: int| T::zero_value()),
            decreases total - data@.len(),
        {
            data.push(T::zero());
        }
        let first: usize = address_of(data.as_slice());
        let start: usize = match aligned_start(first, size, align, spare) {
            Some(k) => k,
            None => 0,
        };
        proof {
            assert(start * size <= total * size) by (nonlinear_arith)
                requires
                    start <= total,
            ;
            assert(0 * size == 0) by (nonlinear_arith);
            if layout::size_of::<T>() == layout::align_of::<T>() || align == layout::align_of::<T>()
            {
                Self::law_where_items_can_be_placed(capacity as int, align as int);
            }
            if Self::placeable(capacity as int, align as int) {
                Self::lemma_placeable(capacity as int, align as int, first as int);
            }
        }
        let address: usize = first + start * size;
        let r = AlignedBuffer { data, start, address, cap: capacity, len: 0, align };
        proof {
            assert(r.mem() =~= Seq::new(capacity as nat, |i: int| T::zero_value()));
            assert(r@ =~= Seq::<T>::empty());
            assert(r.found());
        }
        r
    }

    /// The number of items, meaningful or not.
    pub fn capacity(&self) -> (r: usize)
        requires
            self.wf(),
        ensures
            r == self.mem().len(),
    {
        self.cap
    }

    /// The alignment in bytes that the buffer was made with.
    pub fn alignment(&self) -> (r: usize)
        ensures
            r == self.align(),
    {
        self.align
    }

    /// The address of the first item.
    pub fn first_address(&self) -> (r: usize)
        ensures
            r == self.address(),
    {
        self.address
    }

    /// The number of meaningful items.
    pub fn len(&self) -> (r: usize)
        requires
            self.wf(),
        ensures
            r == self@.len(),
    {
        self.len
    }

    /// Whether no item is meaningful.
    pub fn is_empty(&self) -> (r: bool)
        requires
            self.wf(),
        ensures
            r == (self@.len() == 0),
    {
        self.len == 0
    }

    /// Declares the first `new_len` items meaningful. Those that were never
    /// written read as zero.
    pub fn set_len(&mut self, new_len: usize)
        requires
            old(self).wf(),
            new_len <= old(self).mem().len(),
        ensures
            final(self).wf(),
            final(self).mem() == old(self).mem(),
            final(self)@ == old(self).mem().take(new_len as int),
            final(self).align() == old(self).align(),
            final(self).address() == old(self).address(),
    {
        self.len = new_len;
    }

    /// All items, to be filled before the length is set.
    pub fn capacity_mut(&mut self) -> (r: &mut [T])
        requires
            old(self).wf(),
        ensures
            r@ == old(self).mem(),
            final(r)@.len() == r@.len() ==> {
                &&& final(self).wf()
                &&& final(self).mem() == final(r)@
                &&& final(self)@ == final(r)@.take(old(self)@.len() as int)
            },
            final(self).align() == old(self).align(),
            final(self).address() == old(self).address(),
    {
        let ghost before = *self;
        let start: usize = self.start;
        let cap: usize = self.cap;
        let (head, rest) = self.data.as_mut_slice().split_at_mut(start);
        let (all, tail) = rest.split_at_mut(cap);
        proof {
            assert(all@ =~= before.mem());
            assert forall|filled: Seq<T>|
                #![trigger filled + tail@]
                filled.len() == cap implies (head@ + (filled + tail@)).subrange(
                start as int,
                start + cap,
            ) == filled by {
                assert((head@ + (filled + tail@)).subrange(start as int, start + cap) =~= filled);
            }
        }
        all
    }

    /// The meaningful items.
    pub fn deref(&self) -> (r: &[T])
        requires
            self.wf(),
        ensures
            r@ == self@,
    {
        assert(self.data@.len() == self.data.len());
        let r = vstd::slice::slice_subrange(
            self.data.as_slice(),
            self.start,
            self.start + self.len,
        );
        assert(r@ =~= self@);
        r
    }

    /// The meaningful items, for change in place.
    pub fn deref_mut(&mut self) -> (r: &mut [T])
        requires
            old(self).wf(),
        ensures
            r@ == old(self)@,
            final(r)@.len() == r@.len() ==> {
                &&& final(self).wf()
                &&& final(self)@ == final(r)@
                &&& final(self).mem() == final(r)@ + old(self).mem().skip(r@.len() as int)
            },
            final(self).align() == old(self).align(),
            final(self).address() == old(self).address(),
    {
        let ghost before = *self;
        let start: usize = self.start;
        let len: usize = self.len;
        let ghost cap = self.cap as int;
        let (head, rest) = self.data.as_mut_slice().split_at_mut(start);
        let (items, tail) = rest.split_at_mut(len);
        proof {
            assert(items@ =~= before@);
            assert forall|changed: Seq<T>|
                #![trigger changed + tail@]
                changed.len() == len implies {
                let mem = (head@ + (changed + tail@)).subrange(start as int, start + cap);
                &&& mem == changed + before.mem().skip(len as int)
                &&& mem.take(len as int) == changed
            } by {
                let mem = (head@ + (changed + tail@)).subrange(start as int, start + cap);
                assert(mem =~= changed + before.mem().skip(len as int));
                assert(mem.take(len as int) =~= changed);
            }
        }
        items
    }
}

/// Items are meaningful up to the length that was set last, as they are in memory, and
/// setting it moves none. A buffer says how many items it has and how many of them are
/// meaningful, and shows those.
pub proof fn law_what_a_buffer_says_of_itself<T: Zeroable + Copy>(
    buf: &mut AlignedBuffer<T>,
    new_len: usize,
    u: (),
    after: AlignedBuffer<T>,
    size: usize,
    len: usize,
    empty: bool,
    align: usize,
    address: usize,
    items: &[T],
)
    requires
        old(buf).wf(),
        new_len <= old(buf).mem().len(),
        call_ensures(AlignedBuffer::<T>::set_len, (buf, new_len), u),
        after == *final(buf),
        call_ensures(AlignedBuffer::<T>::capacity, (&after,), size),
        call_ensures(AlignedBuffer::<T>::len, (&after,), len),
        call_ensures(AlignedBuffer::<T>::is_empty, (&after,), empty),
        call_ensures(AlignedBuffer::<T>::alignment, (&after,), align),
        call_ensures(AlignedBuffer::<T>::first_address, (&after,), address),
        call_ensures(AlignedBuffer::<T>::deref, (&after,), items),
    ensures
        after.mem() == old(buf).mem(),
        size == old(buf).mem().len(),
        len == new_len,
        empty <==> new_len == 0,
        align == old(buf).align(),
        address == old(buf).address(),
        items@.len() == new_len,
        forall|i: int| 0 <= i < new_len ==> #[trigger] items@[i] == old(buf).mem()[i],
{
}

/// A buffer is made with as many items as it is given, all of them zero and none of them
/// meaningful, and with the alignment that it is given or that of its items.
pub proof fn law_what_a_buffer_is_made_with<T: Zeroable + Copy>(
    capacity: usize,
    align: usize,
    plain: AlignedBuffer<T>,
    aligned: AlignedBuffer<T>,
    i: int,
)
    requires
        call_ensures(AlignedBuffer::<T>::new, (capacity,), plain),
        call_ensures(AlignedBuffer::<T>::with_alignment, (capacity, align), aligned),
        0 <= i < capacity,
    ensures
        plain.mem().len() == capacity && plain.mem()[i] == T::zero_value() && plain@.len() == 0,
        plain.align() == layout::align_of::<T>(),
        plain.address() as nat % layout::align_of::<T>() == 0,
        aligned.mem().len() == capacity && aligned.mem()[i] == T::zero_value(),
        aligned@.len() == 0,
        aligned.align() == align,
{
}

} // verus!
