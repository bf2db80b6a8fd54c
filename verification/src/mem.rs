//! Memory routines of the CdM-16 runtime (the bodies of `memcpy`, `memmove`,
//! `memset`, `memcmp` and `strlen`), on a byte memory addressed by index.
use vstd::prelude::*;

verus! {

/// `m` with the `count` bytes at `src` copied over the bytes at `dest`, as
/// they were before the copy.
pub open spec fn copied(m: Seq<u8>, dest: int, src: int, count: int) -> Seq<u8> {
    Seq::new(
        m.len(),
        |i: int|
            if dest <= i < dest + count {
                m[src + (i - dest)]
            } else {
                m[i]
            },
    )
}

/// `m` with the `n` bytes at `s` set to `c`.
pub open spec fn filled(m: Seq<u8>, s: int, c: u8, n: int) -> Seq<u8> {
    Seq::new(
        m.len(),
        |i: int|
            if s <= i < s + n {
                c
            } else {
                m[i]
            },
    )
}

/// The address whose byte, as it was before the copy, lands at `dest + j` when bytes are copied
/// one at a time from `src` to `dest`, lowest address first: when the source
/// lies below an overlapping destination, the bytes already copied are read
/// again, so the first `dest - src` bytes repeat.
pub open spec fn forward_source(dest: int, src: int, j: int) -> int {
    if dest > src {
        src + j % (dest - src)
    } else {
        src + j
    }
}

/// The address whose byte, as it was before the copy, lands at `dest + j` when `count` bytes
/// are copied one at a time from `src` to `dest`, highest address first: when
/// the source lies above an overlapping destination, the last `src - dest`
/// bytes repeat downwards.
pub open spec fn backward_source(dest: int, src: int, count: int, j: int) -> int {
    if src > dest {
        src + j + (src - dest) * ((count - 1 - j) / (src - dest))
    } else {
        src + j
    }
}

/// `m` after copying `count` bytes from `src` to `dest` lowest address first.
pub open spec fn copied_forward(m: Seq<u8>, dest: int, src: int, count: int) -> Seq<u8> {
    Seq::new(
        m.len(),
        |i: int|
            if dest <= i < dest + count {
                m[forward_source(dest, src, i - dest)]
            } else {
                m[i]
            },
    )
}

/// `m` after copying `count` bytes from `src` to `dest` highest address first.
pub open spec fn copied_backward(m: Seq<u8>, dest: int, src: int, count: int) -> Seq<u8> {
    Seq::new(
        m.len(),
        |i: int|
            if dest <= i < dest + count {
                m[backward_source(dest, src, count, i - dest)]
            } else {
                m[i]
            },
    )
}

proof fn lemma_forward_source_step(dest: int, src: int, k: int)
    requires
        dest > src,
        src + k >= dest,
        k >= 0,
    ensures
        forward_source(dest, src, k - (dest - src)) == forward_source(dest, src, k),
        0 <= k - (dest - src) < k,
{
    let d = dest - src;
    vstd::arithmetic::div_mod::lemma_mod_sub_multiples_vanish(k, d);
}

proof fn lemma_forward_source_small(dest: int, src: int, k: int)
    requires
        dest > src,
        src + k < dest,
        k >= 0,
    ensures
        forward_source(dest, src, k) == src + k,
{
    vstd::arithmetic::div_mod::lemma_small_mod(k as nat, (dest - src) as nat);
}

proof fn lemma_backward_source_step(dest: int, src: int, count: int, j: int)
    requires
        src > dest,
        0 <= j,
        j + (src - dest) < count,
    ensures
        backward_source(dest, src, count, j + (src - dest)) == backward_source(dest, src, count, j),
{
    let e = src - dest;
    let x = count - 1 - j;
    vstd::arithmetic::div_mod::lemma_fundamental_div_mod(x - e, e);
    vstd::arithmetic::div_mod::lemma_mod_bound(x - e, e);
    assert(x == ((x - e) / e + 1) * e + (x - e) % e) by (nonlinear_arith)
        requires
            x - e == e * ((x - e) / e) + (x - e) % e,
    ;
    vstd::arithmetic::div_mod::lemma_fundamental_div_mod_converse(x, e, (x - e) / e + 1, (x - e) % e);
    assert(backward_source(dest, src, count, j + e) == src + (j + e) + e * ((x - e) / e));
    assert(src + (j + e) + e * ((x - e) / e) == src + j + e * ((x - e) / e + 1)) by (nonlinear_arith);
}

proof fn lemma_backward_source_small(dest: int, src: int, count: int, j: int)
    requires
        src > dest,
        0 <= j < count,
        j + (src - dest) >= count,
    ensures
        backward_source(dest, src, count, j) == src + j,
{
    vstd::arithmetic::div_mod::lemma_basic_div(count - 1 - j, src - dest);
}

/// Copies `count` bytes from `src` to `dest`, one at a time, lowest address
/// first. When the regions overlap with the destination first, this moves the
/// bytes; see `copied_forward` for every other placement.
pub fn copy_forward(mem: &mut Vec<u8>, dest: usize, src: usize, count: usize)
    requires
        count == 0 || (dest + count <= old(mem).len() && src + count <= old(mem).len()),
    ensures
        final(mem)@ == copied_forward(old(mem)@, dest as int, src as int, count as int),
{
    let ghost start = mem@;
    // tst cnt; bz 1f
    if count == 0 {
        assert(mem@ =~= copied_forward(start, dest as int, src as int, 0));
        return;
    }
    let mut d = dest;
    let mut s = src;
    let mut cnt = count;
    while cnt != 0
        invariant
            mem@.len() == start.len(),
            dest + count <= mem.len(),
            src + count <= mem.len(),
            cnt <= count,
            d == dest + (count - cnt),
            s == src + (count - cnt),
            mem@ == copied_forward(start, dest as int, src as int, (count - cnt) as int),
        decreases cnt,
    {
        let ghost k: int = (count - cnt) as int;
        proof {
            if dest > src && src + k >= dest {
                lemma_forward_source_step(dest as int, src as int, k);
            } else if dest > src {
                lemma_forward_source_small(dest as int, src as int, k);
            }
        }
        // ldb src, tmp; stb dst, tmp
        let tmp = mem[s];
        assert(tmp == start[forward_source(dest as int, src as int, k)]);
        mem.set(d, tmp);
        s = s + 1;
        d = d + 1;
        cnt = cnt - 1;
        assert(mem@ =~= copied_forward(start, dest as int, src as int, (count - cnt) as int));
    }
}

/// Copies `count` bytes from `src` to `dest`, one at a time, highest address
/// first. When the regions overlap with the source first, this moves the
/// bytes; see `copied_backward` for every other placement.
pub fn copy_backward(mem: &mut Vec<u8>, dest: usize, src: usize, count: usize)
    requires
        count == 0 || (dest + count <= old(mem).len() && src + count <= old(mem).len()),
    ensures
        final(mem)@ == copied_backward(old(mem)@, dest as int, src as int, count as int),
{
    let ghost start = mem@;
    // tst cnt; bz 1f
    if count == 0 {
        assert(mem@ =~= copied_backward(start, dest as int, src as int, 0));
        return;
    }
    // add dst, cnt, dst; add src, cnt, src; dec dst; dec src
    let mut d = dest + count;
    let mut s = src + count;
    let mut cnt = count;
    while cnt != 0
        invariant
            mem@.len() == start.len(),
            dest + count <= mem.len(),
            src + count <= mem.len(),
            cnt <= count,
            d == dest + cnt,
            s == src + cnt,
            forall|i: int|
                #![trigger mem@[i]]
                0 <= i < mem@.len() ==> mem@[i] == if dest + cnt <= i < dest + count {
                    start[backward_source(dest as int, src as int, count as int, i - dest)]
                } else {
                    start[i]
                },
        decreases cnt,
    {
        d = d - 1;
        s = s - 1;
        let ghost j: int = (cnt - 1) as int;
        proof {
            if src > dest && j + (src - dest) < count {
                lemma_backward_source_step(dest as int, src as int, count as int, j);
                assert(mem@[s as int] == mem@[dest + (j + (src - dest))]);
            } else if src > dest {
                lemma_backward_source_small(dest as int, src as int, count as int, j);
            }
        }
        let tmp = mem[s];
        assert(tmp == start[backward_source(dest as int, src as int, count as int, j)]);
        mem.set(d, tmp);
        cnt = cnt - 1;
    }
    assert(mem@ =~= copied_backward(start, dest as int, src as int, count as int));
}

/// When the destination lies below the source or the regions do not overlap,
/// copying lowest address first moves the bytes.
pub proof fn lemma_forward_copy_moves(m: Seq<u8>, dest: int, src: int, count: int)
    requires
        dest <= src || src + count <= dest,
    ensures
        copied_forward(m, dest, src, count) == copied(m, dest, src, count),
{
    assert forall|j: int| 0 <= j < count implies forward_source(dest, src, j) == src + j by {
        if dest > src {
            vstd::arithmetic::div_mod::lemma_small_mod(j as nat, (dest - src) as nat);
        }
    }
    assert(copied_forward(m, dest, src, count) =~= copied(m, dest, src, count));
}

/// When the destination lies above the source or the regions do not overlap,
/// copying highest address first moves the bytes.
pub proof fn lemma_backward_copy_moves(m: Seq<u8>, dest: int, src: int, count: int)
    requires
        src <= dest || dest + count <= src,
    ensures
        copied_backward(m, dest, src, count) == copied(m, dest, src, count),
{
    assert forall|j: int| 0 <= j < count implies backward_source(dest, src, count, j) == src + j by {
        if src > dest {
            lemma_backward_source_small(dest, src, count, j);
        }
    }
    assert(copied_backward(m, dest, src, count) =~= copied(m, dest, src, count));
}

/// Sets the `n` bytes at `s` to `c`.
pub fn set_bytes(mem: &mut Vec<u8>, s: usize, c: u8, n: usize)
    requires
        n == 0 || s + n <= old(mem).len(),
    ensures
        final(mem)@ == filled(old(mem)@, s as int, c, n as int),
        final(mem)@.len() == old(mem)@.len(),
        forall|i: int| s <= i < s + n ==> #[trigger] final(mem)@[i] == c,
        forall|i: int|
            0 <= i < old(mem)@.len() && !(s <= i < s + n) ==> #[trigger] final(mem)@[i]
                == old(mem)@[i],
{
    let ghost start = mem@;
    // tst cnt; bz 1f
    if n == 0 {
        assert(mem@ =~= filled(start, s as int, c, 0));
        return;
    }
    let mut d = s;
    let mut cnt = n;
    while cnt != 0
        invariant
            mem@.len() == start.len(),
            s + n <= mem.len(),
            cnt <= n,
            d == s + (n - cnt),
            mem@ == filled(start, s as int, c, (n - cnt) as int),
        decreases cnt,
    {
        mem.set(d, c);
        d = d + 1;
        cnt = cnt - 1;
        assert(mem@ =~= filled(start, s as int, c, (n - cnt) as int));
    }
}

/// Filling `n` bytes at `s` with `c` gives exactly those bytes the value `c`,
/// whatever `c` is, and leaves every other byte and the length as they were.
pub proof fn lemma_filled_values(m: Seq<u8>, s: int, c: u8, n: int)
    ensures
        filled(m, s, c, n).len() == m.len(),
        forall|i: int| 0 <= i < m.len() && s <= i < s + n ==> #[trigger] filled(m, s, c, n)[i] == c,
        forall|i: int|
            0 <= i < m.len() && !(s <= i < s + n) ==> #[trigger] filled(m, s, c, n)[i] == m[i],
{
}

/// The bytes at `s1` and `s2` agree on their first `k` positions.
pub open spec fn same_prefix(m: Seq<u8>, s1: int, s2: int, k: int) -> bool {
    forall|j: int| 0 <= j < k ==> #[trigger] m[s1 + j] == m[s2 + j]
}

/// Compares the `n` bytes at `s1` with those at `s2`: the difference of the
/// first pair of bytes that differ, or 0 when all are equal.
pub fn compare_bytes(mem: &Vec<u8>, s1: usize, s2: usize, n: usize) -> (r: i16)
    requires
        n == 0 || (s1 + n <= mem.len() && s2 + n <= mem.len()),
    ensures
        r == 0 <==> same_prefix(mem@, s1 as int, s2 as int, n as int),
        r != 0 ==> exists|i: int|
            0 <= i < n && same_prefix(mem@, s1 as int, s2 as int, i) && r == mem@[s1 + i]
                - mem@[s2 + i],
{
    // ldi val2, 0; tst cnt; bz 1f
    if n == 0 {
        return 0;
    }
    let mut p1 = s1;
    let mut p2 = s2;
    let mut cnt = n;
    while cnt != 0
        invariant
            s1 + n <= mem.len(),
            s2 + n <= mem.len(),
            cnt <= n,
            p1 == s1 + (n - cnt),
            p2 == s2 + (n - cnt),
            same_prefix(mem@, s1 as int, s2 as int, (n - cnt) as int),
        decreases cnt,
    {
        // ldb ptr1, val1; ldb ptr2, val2; sub val1, val2, val2; bnz 1f
        let diff: i16 = mem[p1] as i16 - mem[p2] as i16;
        if diff != 0 {
            assert(diff == mem@[s1 + (n - cnt)] - mem@[s2 + (n - cnt)]);
            return diff;
        }
        p1 = p1 + 1;
        p2 = p2 + 1;
        cnt = cnt - 1;
        assert(same_prefix(mem@, s1 as int, s2 as int, (n - cnt) as int)) by {
            assert forall|j: int| 0 <= j < n - cnt implies #[trigger] mem@[s1 + j] == mem@[s2
                + j] by {
                if j < n - cnt - 1 {
                    assert(mem@[s1 + j] == mem@[s2 + j]);
                }
            }
        }
    }
    0
}

/// The length of the zero-terminated string at `s`: the number of bytes
/// before the first zero byte.
pub fn c_string_length(mem: &Vec<u8>, s: usize) -> (len: usize)
    requires
        exists|j: int| s <= j < mem.len() && mem@[j] == 0,
    ensures
        s + len < mem.len(),
        mem@[s + len] == 0,
        forall|k: int| s <= k < s + len ==> mem@[k] != 0,
{
    let mut p = s;
    while mem[p] != 0
        invariant
            s <= p < mem.len(),
            exists|j: int| p <= j < mem.len() && mem@[j] == 0,
            forall|k: int| s <= k < p ==> mem@[k] != 0,
        decreases mem.len() - p,
    {
        p = p + 1;
    }
    p - s
}

/// After a copy between regions that do not overlap, the two regions compare
/// equal.
pub proof fn lemma_copy_makes_regions_equal(m: Seq<u8>, dest: int, src: int, count: int)
    requires
        0 <= dest,
        0 <= src,
        0 <= count,
        dest + count <= m.len(),
        src + count <= m.len(),
        dest + count <= src || src + count <= dest,
    ensures
        same_prefix(copied(m, dest, src, count), dest, src, count),
{
    let c = copied(m, dest, src, count);
    assert forall|j: int| 0 <= j < count implies #[trigger] c[dest + j] == c[src + j] by {
        assert(c[dest + j] == m[src + j]);
        assert(c[src + j] == m[src + j]);
    }
}

} // verus!
