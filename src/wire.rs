//! The binary layout of protocol values: fixed-width little-endian
//! integers, `u32` variant tags, `u64` length prefixes for sequences, a
//! one-byte presence tag for optional values, and identifiers as 16
//! length-prefixed big-endian bytes.
use vstd::prelude::*;

verus! {

pub open spec fn pow256(n: nat) -> nat
    decreases n,
{
    if n == 0 {
        1
    } else {
        256 * pow256((n - 1) as nat)
    }
}

/// The `n` low bytes of `v`, least significant first.
pub open spec fn le_bytes(v: nat, n: nat) -> Seq<u8>
    decreases n,
{
    if n == 0 {
        Seq::empty()
    } else {
        seq![(v % 256) as u8] + le_bytes(v / 256, (n - 1) as nat)
    }
}

/// The number that bytes stand for, least significant first.
pub open spec fn le_value(s: Seq<u8>) -> nat
    decreases s.len(),
{
    if s.len() == 0 {
        0
    } else {
        (s[0] + 256 * le_value(s.drop_first())) as nat
    }
}

/// The `n` low bytes of `v`, most significant first.
pub open spec fn be_bytes(v: nat, n: nat) -> Seq<u8>
    decreases n,
{
    if n == 0 {
        Seq::empty()
    } else {
        be_bytes(v / 256, (n - 1) as nat).push((v % 256) as u8)
    }
}

/// The number that bytes stand for, most significant first.
pub open spec fn be_value(s: Seq<u8>) -> nat
    decreases s.len(),
{
    if s.len() == 0 {
        0
    } else {
        (be_value(s.drop_last()) * 256 + s.last()) as nat
    }
}

pub proof fn lemma_pow256_mono(a: nat, b: nat)
    requires
        a <= b,
    ensures
        pow256(a) <= pow256(b),
    decreases b,
{
    if a < b {
        lemma_pow256_mono(a, (b - 1) as nat);
    }
}

pub proof fn lemma_pow256_values()
    ensures
        pow256(1) == 0x100,
        pow256(4) == 0x1_0000_0000,
        pow256(8) == 0x1_0000_0000_0000_0000,
        pow256(16) == 0x1_0000_0000_0000_0000_0000_0000_0000_0000,
{
    reveal_with_fuel(pow256, 17);
}

pub proof fn lemma_le_round_trip(v: nat, n: nat)
    requires
        v < pow256(n),
    ensures
        le_bytes(v, n).len() == n,
        le_value(le_bytes(v, n)) == v,
    decreases n,
{
    if n > 0 {
        let n1 = (n - 1) as nat;
        assert(v / 256 < pow256(n1)) by (nonlinear_arith)
            requires
                v < 256 * pow256(n1),
        ;
        lemma_le_round_trip(v / 256, n1);
        let s = le_bytes(v, n);
        assert(s.drop_first() =~= le_bytes(v / 256, n1));
    }
}

pub proof fn lemma_le_value_bound(s: Seq<u8>)
    ensures
        le_value(s) < pow256(s.len()),
    decreases s.len(),
{
    if s.len() > 0 {
        lemma_le_value_bound(s.drop_first());
        let r = le_value(s.drop_first());
        let p = pow256((s.len() - 1) as nat);
        assert(s[0] + 256 * r < 256 * p) by (nonlinear_arith)
            requires
                r < p,
                s[0] < 256,
        ;
    }
}

pub proof fn lemma_be_round_trip(v: nat, n: nat)
    requires
        v < pow256(n),
    ensures
        be_bytes(v, n).len() == n,
        be_value(be_bytes(v, n)) == v,
    decreases n,
{
    if n > 0 {
        let n1 = (n - 1) as nat;
        assert(v / 256 < pow256(n1)) by (nonlinear_arith)
            requires
                v < 256 * pow256(n1),
        ;
        lemma_be_round_trip(v / 256, n1);
        let s = be_bytes(v, n);
        assert(s.drop_last() =~= be_bytes(v / 256, n1));
    }
}

pub proof fn lemma_be_value_bound(s: Seq<u8>)
    ensures
        be_value(s) < pow256(s.len()),
    decreases s.len(),
{
    if s.len() > 0 {
        lemma_be_value_bound(s.drop_last());
        let r = be_value(s.drop_last());
        let p = pow256((s.len() - 1) as nat);
        assert(r * 256 + s.last() < 256 * p) by (nonlinear_arith)
            requires
                r < p,
                s.last() < 256,
        ;
    }
}

pub proof fn lemma_le_canonical(s: Seq<u8>)
    ensures
        le_bytes(le_value(s), s.len()) == s,
    decreases s.len(),
{
    if s.len() > 0 {
        let r = le_value(s.drop_first());
        lemma_le_canonical(s.drop_first());
        vstd::arithmetic::div_mod::lemma_fundamental_div_mod_converse(
            le_value(s) as int,
            256,
            r as int,
            s[0] as int,
        );
        assert(le_bytes(le_value(s), s.len()) =~= s);
    }
}

pub proof fn lemma_be_canonical(s: Seq<u8>)
    ensures
        be_bytes(be_value(s), s.len()) == s,
    decreases s.len(),
{
    if s.len() > 0 {
        let r = be_value(s.drop_last());
        lemma_be_canonical(s.drop_last());
        vstd::arithmetic::div_mod::lemma_fundamental_div_mod_converse(
            be_value(s) as int,
            256,
            r as int,
            s.last() as int,
        );
        assert(be_bytes(be_value(s), s.len()) =~= s);
    }
}

/// Appends the `n` low bytes of `v`, least significant first.
pub fn put_le(out: &mut Vec<u8>, v: u128, n: usize)
    requires
        n <= 16,
    ensures
        final(out)@ == old(out)@ + le_bytes(v as nat, n as nat),
    decreases n,
{
    if n > 0 {
        out.push((v % 256) as u8);
        put_le(out, v / 256, n - 1);
        assert(old(out)@.push((v % 256) as u8) + le_bytes((v / 256) as nat, (n - 1) as nat) =~= old(out)@
            + le_bytes(v as nat, n as nat));
    }
}

/// Reads `n` bytes at `pos`, least significant first.
pub fn get_le(buf: &[u8], pos: usize, n: usize) -> (r: u128)
    requires
        n <= 16,
        pos + n <= buf@.len(),
    ensures
        r == le_value(buf@.subrange(pos as int, pos + n)),
    decreases n,
{
    let len = buf.len();
    if n == 0 {
        0
    } else {
        let rest = get_le(buf, pos + 1, n - 1);
        proof {
            let s = buf@.subrange(pos as int, pos + n);
            assert(s.drop_first() =~= buf@.subrange(pos + 1, pos + n));
            lemma_le_value_bound(s.drop_first());
            lemma_pow256_mono((n - 1) as nat, 15);
            lemma_pow256_values();
            assert(pow256(15) * 256 == pow256(16));
            assert(buf@[pos as int] + 256 * rest < pow256(16)) by (nonlinear_arith)
                requires
                    rest < pow256(15),
                    buf@[pos as int] < 256,
                    pow256(15) * 256 == pow256(16),
            ;
        }
        buf[pos] as u128 + 256 * rest
    }
}

/// Appends the `n` low bytes of `v`, most significant first.
pub fn put_be(out: &mut Vec<u8>, v: u128, n: usize)
    requires
        n <= 16,
    ensures
        final(out)@ == old(out)@ + be_bytes(v as nat, n as nat),
    decreases n,
{
    if n > 0 {
        put_be(out, v / 256, n - 1);
        out.push((v % 256) as u8);
        assert(old(out)@ + be_bytes((v / 256) as nat, (n - 1) as nat).push((v % 256) as u8) =~= old(out)@
            + be_bytes(v as nat, n as nat));
    }
}

/// Reads `n` bytes at `pos`, most significant first.
pub fn get_be(buf: &[u8], pos: usize, n: usize) -> (r: u128)
    requires
        n <= 16,
        pos + n <= buf@.len(),
    ensures
        r == be_value(buf@.subrange(pos as int, pos + n)),
    decreases n,
{
    let len = buf.len();
    if n == 0 {
        0
    } else {
        let front = get_be(buf, pos, n - 1);
        proof {
            let s = buf@.subrange(pos as int, pos + n);
            assert(s.drop_last() =~= buf@.subrange(pos as int, pos + n - 1));
            lemma_be_value_bound(s.drop_last());
            lemma_pow256_mono((n - 1) as nat, 15);
            lemma_pow256_values();
            assert(pow256(15) * 256 == pow256(16));
            assert(front * 256 + buf@[pos + n - 1] < pow256(16)) by (nonlinear_arith)
                requires
                    front < pow256(15),
                    buf@[pos + n - 1] < 256,
                    pow256(15) * 256 == pow256(16),
            ;
        }
        front * 256 + buf[pos + n - 1] as u128
    }
}

/// A value with a binary layout, stated over its model `M`.
pub trait Wire: Sized {
    type M;

    spec fn model(&self) -> Self::M;

    /// The models that can be laid out (their lengths fit the prefixes).
    spec fn fits(m: Self::M) -> bool;

    /// The bytes of a value.
    spec fn enc(m: Self::M) -> Seq<u8>;

    /// The value at the start of `s` and the number of bytes it takes.
    spec fn parse(s: Seq<u8>) -> Option<(Self::M, nat)>;

    proof fn lemma_fits(&self)
        ensures
            Self::fits(self.model()),
    ;

    /// Parsing the bytes of a value, whatever follows them, gives the value back.
    proof fn lemma_round_trip(m: Self::M, rest: Seq<u8>)
        requires
            Self::fits(m),
        ensures
            Self::parse(Self::enc(m) + rest) == Some((m, Self::enc(m).len())),
    ;

    /// What a parse accepts is exactly the bytes of the value it returns.
    proof fn lemma_parse_canonical(s: Seq<u8>)
        ensures
            Self::parse(s) matches Some((m, n)) ==> n <= s.len() && s.subrange(0, n as int) == Self::enc(m),
    ;

    fn put(&self, out: &mut Vec<u8>)
        ensures
            final(out)@ == old(out)@ + Self::enc(self.model()),
    ;

    fn take(buf: &[u8], pos: usize) -> (r: Option<(Self, usize)>)
        requires
            pos <= buf@.len(),
        ensures
            match r {
                Some((v, end)) => pos <= end <= buf@.len() && Self::parse(buf@.skip(pos as int)) == Some(
                    (v.model(), (end - pos) as nat),
                ),
                None => Self::parse(buf@.skip(pos as int)) is None,
            },
    ;
}

pub proof fn lemma_skip_skip(s: Seq<u8>, a: int, b: int)
    requires
        0 <= a <= s.len(),
        0 <= b <= s.len() - a,
    ensures
        s.skip(a).skip(b) == s.skip(a + b),
{
    assert(s.skip(a).skip(b) =~= s.skip(a + b));
}

pub proof fn lemma_skip_prefix(p: Seq<u8>, rest: Seq<u8>)
    ensures
        (p + rest).skip(p.len() as int) == rest,
{
    assert((p + rest).skip(p.len() as int) =~= rest);
}

impl Wire for u8 {
    type M = u8;

    open spec fn model(&self) -> u8 {
        *self
    }

    open spec fn fits(m: u8) -> bool {
        true
    }

    open spec fn enc(m: u8) -> Seq<u8> {
        seq![m]
    }

    open spec fn parse(s: Seq<u8>) -> Option<(u8, nat)> {
        if s.len() >= 1 {
            Some((s[0], 1))
        } else {
            None
        }
    }

    proof fn lemma_fits(&self) {
    }

    proof fn lemma_round_trip(m: u8, rest: Seq<u8>) {
    }

    proof fn lemma_parse_canonical(s: Seq<u8>) {
        if s.len() >= 1 {
            assert(s.subrange(0, 1) =~= seq![s[0]]);
        }
    }

    fn put(&self, out: &mut Vec<u8>) {
        out.push(*self);
        assert(final(out)@ =~= old(out)@ + seq![*self]);
    }

    fn take(buf: &[u8], pos: usize) -> (r: Option<(u8, usize)>) {
        if pos < buf.len() {
            Some((buf[pos], pos + 1))
        } else {
            None
        }
    }
}

/// The two's complement of `v` in `bits` bits.
pub open spec fn twos(v: int, bits: nat) -> nat {
    if v >= 0 {
        v as nat
    } else {
        (v + pow2(bits)) as nat
    }
}

/// The signed number that `u` stands for in `bits` bits of two's complement.
pub open spec fn untwos(u: nat, bits: nat) -> int {
    if u < pow2(bits) / 2 {
        u as int
    } else {
        u - pow2(bits)
    }
}

pub open spec fn pow2(bits: nat) -> int {
    if bits == 8 {
        0x100
    } else {
        0x1_0000_0000
    }
}

impl Wire for i8 {
    type M = i8;

    open spec fn model(&self) -> i8 {
        *self
    }

    open spec fn fits(m: i8) -> bool {
        true
    }

    open spec fn enc(m: i8) -> Seq<u8> {
        le_bytes(twos(m as int, 8), 1)
    }

    open spec fn parse(s: Seq<u8>) -> Option<(i8, nat)> {
        if s.len() >= 1 {
            Some((untwos(le_value(s.subrange(0, 1)), 8) as i8, 1))
        } else {
            None
        }
    }

    proof fn lemma_fits(&self) {
    }

    proof fn lemma_round_trip(m: i8, rest: Seq<u8>) {
        lemma_pow256_values();
        lemma_le_round_trip(twos(m as int, 8), 1);
        assert((Self::enc(m) + rest).subrange(0, 1) =~= Self::enc(m));
    }

    proof fn lemma_parse_canonical(s: Seq<u8>) {
        if s.len() >= 1 {
            let b = s.subrange(0, 1);
            lemma_le_canonical(b);
            lemma_le_value_bound(b);
            lemma_pow256_values();
        }
    }

    fn put(&self, out: &mut Vec<u8>) {
        let u: u128 = if *self >= 0 {
            *self as u128
        } else {
            (*self as i16 + 256) as u128
        };
        put_le(out, u, 1);
    }

    fn take(buf: &[u8], pos: usize) -> (r: Option<(i8, usize)>) {
        if pos < buf.len() {
            let u = get_le(buf, pos, 1);
            proof {
                lemma_le_value_bound(buf@.subrange(pos as int, pos + 1));
                lemma_pow256_values();
                assert(buf@.skip(pos as int).subrange(0, 1) =~= buf@.subrange(pos as int, pos + 1));
            }
            let v: i8 = if u < 128 {
                u as i8
            } else {
                (u as i16 - 256) as i8
            };
            Some((v, pos + 1))
        } else {
            None
        }
    }
}

impl Wire for i32 {
    type M = i32;

    open spec fn model(&self) -> i32 {
        *self
    }

    open spec fn fits(m: i32) -> bool {
        true
    }

    open spec fn enc(m: i32) -> Seq<u8> {
        le_bytes(twos(m as int, 32), 4)
    }

    open spec fn parse(s: Seq<u8>) -> Option<(i32, nat)> {
        if s.len() >= 4 {
            Some((untwos(le_value(s.subrange(0, 4)), 32) as i32, 4))
        } else {
            None
        }
    }

    proof fn lemma_fits(&self) {
    }

    proof fn lemma_round_trip(m: i32, rest: Seq<u8>) {
        lemma_pow256_values();
        lemma_le_round_trip(twos(m as int, 32), 4);
        assert((Self::enc(m) + rest).subrange(0, 4) =~= Self::enc(m));
    }

    proof fn lemma_parse_canonical(s: Seq<u8>) {
        if s.len() >= 4 {
            let b = s.subrange(0, 4);
            lemma_le_canonical(b);
            lemma_le_value_bound(b);
            lemma_pow256_values();
        }
    }

    fn put(&self, out: &mut Vec<u8>) {
        let u: u128 = if *self >= 0 {
            *self as u128
        } else {
            (*self as i64 + 0x1_0000_0000) as u128
        };
        put_le(out, u, 4);
    }

    fn take(buf: &[u8], pos: usize) -> (r: Option<(i32, usize)>) {
        if buf.len() - pos >= 4 {
            let u = get_le(buf, pos, 4);
            proof {
                lemma_le_value_bound(buf@.subrange(pos as int, pos + 4));
                lemma_pow256_values();
                assert(buf@.skip(pos as int).subrange(0, 4) =~= buf@.subrange(pos as int, pos + 4));
            }
            let v: i32 = if u < 0x8000_0000 {
                u as i32
            } else {
                (u as i64 - 0x1_0000_0000) as i32
            };
            Some((v, pos + 4))
        } else {
            None
        }
    }
}

/// The bytes of a sequence of values, without the length prefix.
pub open spec fn enc_items<T: Wire>(m: Seq<T::M>) -> Seq<u8>
    decreases m.len(),
{
    if m.len() == 0 {
        Seq::empty()
    } else {
        enc_items::<T>(m.drop_last()) + T::enc(m.last())
    }
}

/// Parses `k` values one after the other from the start of `s`.
pub open spec fn parse_items<T: Wire>(s: Seq<u8>, k: nat) -> Option<(Seq<T::M>, nat)>
    decreases k,
{
    if k == 0 {
        Some((Seq::empty(), 0))
    } else {
        match parse_items::<T>(s, (k - 1) as nat) {
            Some((xs, n)) => if n <= s.len() {
                match T::parse(s.skip(n as int)) {
                    Some((x, m)) => Some((xs.push(x), n + m)),
                    None => None,
                }
            } else {
                None
            },
            None => None,
        }
    }
}

pub open spec fn models<T: Wire>(v: Seq<T>) -> Seq<T::M> {
    v.map_values(|x: T| x.model())
}

pub proof fn lemma_items_round_trip<T: Wire>(m: Seq<T::M>, rest: Seq<u8>)
    requires
        forall|i: int| 0 <= i < m.len() ==> T::fits(#[trigger] m[i]),
    ensures
        parse_items::<T>(enc_items::<T>(m) + rest, m.len()) == Some((m, enc_items::<T>(m).len())),
    decreases m.len(),
{
    if m.len() > 0 {
        let init = m.drop_last();
        let x = m.last();
        let rest2 = T::enc(x) + rest;
        assert(enc_items::<T>(m) + rest =~= enc_items::<T>(init) + rest2);
        assert forall|i: int| 0 <= i < init.len() implies T::fits(#[trigger] init[i]) by {
            assert(init[i] == m[i]);
        }
        lemma_items_round_trip::<T>(init, rest2);
        lemma_skip_prefix(enc_items::<T>(init), rest2);
        T::lemma_round_trip(x, rest);
        assert(init.push(x) =~= m);
    }
}

pub proof fn lemma_items_none<T: Wire>(s: Seq<u8>, k: nat, k2: nat)
    requires
        k <= k2,
        parse_items::<T>(s, k) is None,
    ensures
        parse_items::<T>(s, k2) is None,
    decreases k2,
{
    if k < k2 {
        lemma_items_none::<T>(s, k, (k2 - 1) as nat);
    }
}

pub proof fn lemma_models_push<T: Wire>(v: Seq<T>, x: T)
    ensures
        models::<T>(v.push(x)) == models::<T>(v).push(x.model()),
{
    assert(models::<T>(v.push(x)) =~= models::<T>(v).push(x.model()));
}

/// Reads the length prefix at `pos`.
pub fn take_len(buf: &[u8], pos: usize) -> (r: Option<(u64, usize)>)
    requires
        pos <= buf@.len(),
    ensures
        match r {
            Some((n, end)) => end == pos + 8 && end <= buf@.len() && n == le_value(buf@.skip(pos as int).subrange(0, 8)),
            None => buf@.len() - pos < 8,
        },
{
    if buf.len() - pos >= 8 {
        let n = get_le(buf, pos, 8);
        proof {
            lemma_le_value_bound(buf@.subrange(pos as int, pos + 8));
            lemma_pow256_values();
            assert(buf@.skip(pos as int).subrange(0, 8) =~= buf@.subrange(pos as int, pos + 8));
        }
        Some((n as u64, pos + 8))
    } else {
        None
    }
}

impl<T: Wire> Wire for Vec<T> {
    type M = Seq<T::M>;

    open spec fn model(&self) -> Seq<T::M> {
        models::<T>(self@)
    }

    open spec fn fits(m: Seq<T::M>) -> bool {
        &&& m.len() < pow256(8)
        &&& forall|i: int| 0 <= i < m.len() ==> T::fits(#[trigger] m[i])
    }

    open spec fn enc(m: Seq<T::M>) -> Seq<u8> {
        le_bytes(m.len(), 8) + enc_items::<T>(m)
    }

    open spec fn parse(s: Seq<u8>) -> Option<(Seq<T::M>, nat)> {
        if s.len() >= 8 {
            match parse_items::<T>(s.skip(8), le_value(s.subrange(0, 8))) {
                Some((xs, k)) => Some((xs, 8 + k)),
                None => None,
            }
        } else {
            None
        }
    }

    proof fn lemma_fits(&self) {
        broadcast use vstd::std_specs::vec::axiom_spec_len;
        lemma_pow256_values();
        assert(self@.len() == self.len());
        assert forall|i: int| 0 <= i < self.model().len() implies T::fits(#[trigger] self.model()[i]) by {
            self@[i].lemma_fits();
        }
    }

    proof fn lemma_round_trip(m: Seq<T::M>, rest: Seq<u8>) {
        lemma_le_round_trip(m.len(), 8);
        let s = Self::enc(m) + rest;
        assert(s.subrange(0, 8) =~= le_bytes(m.len(), 8));
        assert(s.skip(8) =~= enc_items::<T>(m) + rest);
        lemma_items_round_trip::<T>(m, rest);
    }

    proof fn lemma_parse_canonical(s: Seq<u8>) {
        if s.len() >= 8 {
            let h = s.subrange(0, 8);
            let body = s.skip(8);
            lemma_items_canonical::<T>(body, le_value(h));
            lemma_le_canonical(h);
            if let Some((xs, k)) = parse_items::<T>(body, le_value(h)) {
                assert(s.subrange(0, 8 + k as int) =~= h + body.subrange(0, k as int));
            }
        }
    }

    fn put(&self, out: &mut Vec<u8>) {
        let ghost start = out@;
        let ghost m = self.model();
        proof {
            lemma_pow256_values();
        }
        put_le(out, self.len() as u128, 8);
        let mut i: usize = 0;
        while i < self.len()
            invariant
                i <= self@.len(),
                m == models::<T>(self@),
                out@ == start + le_bytes(self@.len() as nat, 8) + enc_items::<T>(m.subrange(0, i as int)),
            decreases self@.len() - i,
        {
            let ghost before = out@;
            self[i].put(out);
            proof {
                assert(m.subrange(0, i + 1).drop_last() =~= m.subrange(0, i as int));
                assert(out@ =~= start + le_bytes(self@.len() as nat, 8) + enc_items::<T>(m.subrange(0, i + 1)));
            }
            i = i + 1;
        }
        assert(m.subrange(0, self@.len() as int) =~= m);
    }

    fn take(buf: &[u8], pos: usize) -> (r: Option<(Vec<T>, usize)>) {
        let (n, start) = match take_len(buf, pos) {
            Some(x) => x,
            None => {
                return None;
            },
        };
        let ghost s = buf@.skip(pos as int);
        let ghost body = buf@.skip(start as int);
        proof {
            lemma_skip_skip(buf@, pos as int, 8);
        }
        let mut items: Vec<T> = Vec::new();
        let mut p: usize = start;
        let mut i: u64 = 0;
        while i < n
            invariant
                start == pos + 8,
                start <= p <= buf@.len(),
                i <= n,
                body == buf@.skip(start as int),
                s == buf@.skip(pos as int),
                s.len() >= 8,
                s.skip(8) == body,
                n == le_value(s.subrange(0, 8)),
                parse_items::<T>(body, i as nat) == Some((models::<T>(items@), (p - start) as nat)),
            decreases n - i,
        {
            proof {
                lemma_skip_skip(buf@, start as int, p - start);
            }
            match T::take(buf, p) {
                Some((x, q)) => {
                    proof {
                        lemma_models_push::<T>(items@, x);
                    }
                    items.push(x);
                    p = q;
                    i = i + 1;
                },
                None => {
                    proof {
                        lemma_items_none::<T>(body, (i + 1) as nat, n as nat);
                    }
                    return None;
                },
            }
        }
        Some((items, p))
    }
}

pub proof fn lemma_items_canonical<T: Wire>(s: Seq<u8>, k: nat)
    ensures
        parse_items::<T>(s, k) matches Some((xs, n)) ==> n <= s.len() && xs.len() == k && s.subrange(
            0,
            n as int,
        ) == enc_items::<T>(xs),
    decreases k,
{
    if k > 0 {
        lemma_items_canonical::<T>(s, (k - 1) as nat);
        if let Some((xs, n)) = parse_items::<T>(s, (k - 1) as nat) {
            if n <= s.len() {
                T::lemma_parse_canonical(s.skip(n as int));
                if let Some((x, m)) = T::parse(s.skip(n as int)) {
                    assert(xs.push(x).drop_last() =~= xs);
                    assert(s.subrange(0, (n + m) as int) =~= s.subrange(0, n as int) + s.skip(n as int).subrange(
                        0,
                        m as int,
                    ));
                }
            }
        }
    }
}

impl<T: Wire> Wire for Option<T> {
    type M = Option<T::M>;

    open spec fn model(&self) -> Option<T::M> {
        match self {
            Some(x) => Some(x.model()),
            None => None,
        }
    }

    open spec fn fits(m: Option<T::M>) -> bool {
        match m {
            Some(x) => T::fits(x),
            None => true,
        }
    }

    open spec fn enc(m: Option<T::M>) -> Seq<u8> {
        match m {
            Some(x) => seq![1u8] + T::enc(x),
            None => seq![0u8],
        }
    }

    open spec fn parse(s: Seq<u8>) -> Option<(Option<T::M>, nat)> {
        if s.len() >= 1 && s[0] == 0 {
            Some((None, 1))
        } else if s.len() >= 1 && s[0] == 1 {
            match T::parse(s.skip(1)) {
                Some((x, n)) => Some((Some(x), 1 + n)),
                None => None,
            }
        } else {
            None
        }
    }

    proof fn lemma_fits(&self) {
        if let Some(x) = self {
            x.lemma_fits();
        }
    }

    proof fn lemma_round_trip(m: Option<T::M>, rest: Seq<u8>) {
        if let Some(x) = m {
            lemma_skip_prefix(seq![1u8], T::enc(x) + rest);
            assert(Self::enc(m) + rest =~= seq![1u8] + (T::enc(x) + rest));
            T::lemma_round_trip(x, rest);
        }
    }

    proof fn lemma_parse_canonical(s: Seq<u8>) {
        if s.len() >= 1 {
            T::lemma_parse_canonical(s.skip(1));
            if s[0] == 0 {
                assert(s.subrange(0, 1) =~= seq![0u8]);
            } else if let Some((x, n)) = T::parse(s.skip(1)) {
                if s[0] == 1 {
                    assert(s.subrange(0, 1 + n as int) =~= seq![1u8] + s.skip(1).subrange(0, n as int));
                }
            }
        }
    }

    fn put(&self, out: &mut Vec<u8>) {
        match self {
            Some(x) => {
                out.push(1u8);
                let ghost mid = out@;
                x.put(out);
                assert(out@ =~= old(out)@ + Self::enc(self.model()));
            },
            None => {
                out.push(0u8);
                assert(out@ =~= old(out)@ + Self::enc(self.model()));
            },
        }
    }

    fn take(buf: &[u8], pos: usize) -> (r: Option<(Option<T>, usize)>) {
        if pos >= buf.len() {
            return None;
        }
        let t = buf[pos];
        if t == 0 {
            Some((None, pos + 1))
        } else if t == 1 {
            proof {
                lemma_skip_skip(buf@, pos as int, 1);
            }
            match T::take(buf, pos + 1) {
                Some((x, end)) => Some((Some(x), end)),
                None => None,
            }
        } else {
            None
        }
    }
}

/// The bytes of a variant tag.
pub open spec fn enc_tag(t: nat) -> Seq<u8> {
    le_bytes(t, 4)
}

/// The variant tag at the start of `s`.
pub open spec fn parse_tag(s: Seq<u8>) -> Option<nat> {
    if s.len() >= 4 {
        Some(le_value(s.subrange(0, 4)))
    } else {
        None
    }
}

pub proof fn lemma_tag_round_trip(t: nat, rest: Seq<u8>)
    requires
        t < 256,
    ensures
        enc_tag(t).len() == 4,
        parse_tag(enc_tag(t) + rest) == Some(t),
        (enc_tag(t) + rest).skip(4) == rest,
{
    lemma_pow256_values();
    lemma_le_round_trip(t, 4);
    assert((enc_tag(t) + rest).subrange(0, 4) =~= enc_tag(t));
    lemma_skip_prefix(enc_tag(t), rest);
}

pub proof fn lemma_tag_canonical(s: Seq<u8>)
    ensures
        parse_tag(s) matches Some(t) ==> s.subrange(0, 4) == enc_tag(t),
{
    if s.len() >= 4 {
        lemma_le_canonical(s.subrange(0, 4));
    }
}

pub fn put_tag(out: &mut Vec<u8>, t: u32)
    ensures
        final(out)@ == old(out)@ + enc_tag(t as nat),
{
    put_le(out, t as u128, 4);
}

/// Reads the variant tag at `pos`.
pub fn take_tag(buf: &[u8], pos: usize) -> (r: Option<(u32, usize)>)
    requires
        pos <= buf@.len(),
    ensures
        match r {
            Some((t, end)) => end == pos + 4 && end <= buf@.len() && parse_tag(buf@.skip(pos as int)) == Some(t as nat),
            None => parse_tag(buf@.skip(pos as int)) is None,
        },
{
    if buf.len() - pos >= 4 {
        let t = get_le(buf, pos, 4);
        proof {
            lemma_le_value_bound(buf@.subrange(pos as int, pos + 4));
            lemma_pow256_values();
            assert(buf@.skip(pos as int).subrange(0, 4) =~= buf@.subrange(pos as int, pos + 4));
        }
        Some((t as u32, pos + 4))
    } else {
        None
    }
}

} // verus!
