//! The busiest processes: ranking by CPU share, stable among equals, and the
//! shortening of long process names.
use vstd::prelude::*;
use vstd::pervasive::VecAdditionalExecFns;
use vstd::string::{StringExecFns, StringSliceAdditionalSpecFns};
use vstd::utf8::{decode_utf8, encode_utf8, is_char_boundary, decode_utf8_split, encode_utf8_decode_utf8, encode_utf8_valid_utf8, decode_utf8_encode_utf8};
use vstd::arithmetic::power2::{
    lemma_pow2_pos, lemma_pow2_strictly_increases, lemma_pow2_unfold, pow2,
};
use vstd::set_lib::{lemma_int_range, lemma_map_size, lemma_subset_equality, set_int_range};

verus! {

/// One row of the process table. The CPU share (in percent, possibly above 100)
/// is held as the bit pattern of its `f32` value: for non-negative shares, the
/// bit patterns order as the values do and are equal where the values are.
/// Memory is in bytes.
#[derive(Debug)]
pub struct ProcessRow {
    pub pid: u32,
    pub name: String,
    pub cpu_bits: u32,
    pub memory_bytes: u64,
}

/// `ProcessRow` with its name taken as a character sequence.
pub struct ProcessRowView {
    pub pid: u32,
    pub name: Seq<char>,
    pub cpu_bits: u32,
    pub memory_bytes: u64,
}

impl View for ProcessRow {
    type V = ProcessRowView;

    open spec fn view(&self) -> ProcessRowView {
        ProcessRowView {
            pid: self.pid,
            name: self.name@,
            cpu_bits: self.cpu_bits,
            memory_bytes: self.memory_bytes,
        }
    }
}

/// The rows taken as views.
pub open spec fn rows_view(rows: Seq<ProcessRow>) -> Seq<ProcessRowView> {
    rows.map_values(|r: ProcessRow| r@)
}

/// The key by which a CPU share ranks: its bit pattern where the share is a
/// non-negative number (up to `+∞`, pattern `0x7F80_0000`), else 0, so that a
/// negative zero ranks with zero and a NaN share ranks last.
pub open spec fn cpu_rank_key(bits: u32) -> u32 {
    if bits <= 0x7F80_0000 {
        bits
    } else {
        0
    }
}

/// The ranking keys of the rows, in row order.
pub open spec fn cpu_keys(rows: Seq<ProcessRowView>) -> Seq<u32> {
    rows.map_values(|r: ProcessRowView| cpu_rank_key(r.cpu_bits))
}

/// Whether row `i` comes before row `j` in the ranking: a greater CPU share
/// first, and among equal shares the earlier row first.
pub open spec fn ranks_before(keys: Seq<u32>, i: int, j: int) -> bool {
    keys[i] > keys[j] || (keys[i] == keys[j] && i < j)
}

/// How many of the first `m` rows come before row `i`.
pub open spec fn count_before(keys: Seq<u32>, i: int, m: int) -> nat
    decreases m,
{
    if m <= 0 {
        0
    } else {
        count_before(keys, i, m - 1) + if ranks_before(keys, m - 1, i) {
            1nat
        } else {
            0nat
        }
    }
}

/// The place of row `i` in the ranking of all rows.
pub open spec fn rank(keys: Seq<u32>, i: int) -> nat {
    count_before(keys, i, keys.len() as int)
}

/// At most `m` rows, row `i` itself not among them, come before it.
pub proof fn lemma_count_bound(keys: Seq<u32>, i: int, m: int)
    requires
        0 <= m <= keys.len(),
        0 <= i < keys.len(),
    ensures
        count_before(keys, i, m) + (if i < m {
            1int
        } else {
            0int
        }) <= m,
    decreases m,
{
    if m > 0 {
        lemma_count_bound(keys, i, m - 1);
    }
}

/// A row that comes before another has fewer rows before it.
pub proof fn lemma_count_monotone(keys: Seq<u32>, i: int, j: int, m: int)
    requires
        0 <= i < keys.len(),
        0 <= j < keys.len(),
        0 <= m <= keys.len(),
        ranks_before(keys, i, j),
    ensures
        count_before(keys, i, m) + (if i < m {
            1int
        } else {
            0int
        }) <= count_before(keys, j, m),
    decreases m,
{
    if m > 0 {
        lemma_count_monotone(keys, i, j, m - 1);
    }
}

/// Ranks are below the number of rows, and distinct rows have distinct ranks,
/// in the order in which the rows come.
pub proof fn lemma_rank_order(keys: Seq<u32>, i: int, j: int)
    requires
        0 <= i < keys.len(),
        0 <= j < keys.len(),
    ensures
        rank(keys, i) < keys.len(),
        ranks_before(keys, i, j) ==> rank(keys, i) < rank(keys, j),
        i != j ==> rank(keys, i) != rank(keys, j),
{
    lemma_count_bound(keys, i, keys.len() as int);
    if ranks_before(keys, i, j) {
        lemma_count_monotone(keys, i, j, keys.len() as int);
    }
    if ranks_before(keys, j, i) {
        lemma_count_monotone(keys, j, i, keys.len() as int);
    }
}

/// The ranking puts a row with a greater key first, and of two rows with equal
/// keys the one given earlier first; every rank is below the number of rows.
pub proof fn lemma_rank_descending_stable(keys: Seq<u32>, i: int, j: int)
    requires
        0 <= i < keys.len(),
        0 <= j < keys.len(),
    ensures
        rank(keys, i) < keys.len(),
        keys[i] > keys[j] ==> rank(keys, i) < rank(keys, j),
        keys[i] == keys[j] && i < j ==> rank(keys, i) < rank(keys, j),
{
    lemma_rank_order(keys, i, j);
}

/// Every place of the ranking is taken by a row.
pub proof fn lemma_rank_onto(keys: Seq<u32>, p: int)
    requires
        0 <= p < keys.len(),
    ensures
        exists|i: int| 0 <= i < keys.len() && rank(keys, i) == p,
{
    let n = keys.len() as int;
    let rows = set_int_range(0, n);
    let f = |i: int| rank(keys, i) as int;
    lemma_int_range(0, n);
    assert forall|a: int, b: int| rows.contains(a) && rows.contains(b) && f(a) == f(b) implies a
        == b by {
        lemma_rank_order(keys, a, b);
    }
    let places = rows.map(f);
    lemma_map_size(rows, places, f);
    assert forall|q: int| places.contains(q) implies rows.contains(q) by {
        let a = choose|a: int| rows.contains(a) && f(a) == q;
        lemma_rank_order(keys, a, a);
    }
    lemma_subset_equality(places, rows);
    assert(rows.contains(p));
    assert(places.contains(p));
    let w = choose|a: int| rows.contains(a) && f(a) == p;
    assert(0 <= w < n && rank(keys, w) == p);
}

/// The bit pattern of `+∞` as an `f32`.
pub open spec fn f32_infinity() -> u32 {
    0x7F80_0000
}

/// The value of the finite non-negative `f32` with bit pattern `bits`, times
/// 2^149 so that it is a whole number: a subnormal `m` is `m · 2^-149`, a normal
/// number with exponent field `e` and fraction `m` is `(2^23 + m) · 2^(e - 150)`.
pub open spec fn f32_scaled_value(bits: u32) -> nat {
    let e = (bits / 0x80_0000) as nat;
    let m = (bits % 0x80_0000) as nat;
    if e == 0 {
        m
    } else {
        (0x80_0000 + m) * pow2((e - 1) as nat)
    }
}

/// Whether the bit pattern is that of a non-negative `f32` other than NaN
/// (zero, a finite positive number or `+∞`).
pub open spec fn f32_non_negative(bits: u32) -> bool {
    bits <= f32_infinity()
}

/// Whether, as `f32` values, `x > y`, for non-negative values other than NaN.
pub open spec fn f32_greater(x: u32, y: u32) -> bool {
    ||| (x == f32_infinity() && y != f32_infinity())
    ||| (x != f32_infinity() && y != f32_infinity() && f32_scaled_value(x) > f32_scaled_value(y))
}

/// Among finite non-negative `f32` values, a greater bit pattern is a greater value.
pub proof fn lemma_f32_value_increasing(x: u32, y: u32)
    requires
        x < y < f32_infinity(),
    ensures
        f32_scaled_value(x) < f32_scaled_value(y),
{
    let ex = (x / 0x80_0000) as nat;
    let mx = (x % 0x80_0000) as nat;
    let ey = (y / 0x80_0000) as nat;
    let my = (y % 0x80_0000) as nat;
    assert(ex <= ey);
    if ex == ey {
        assert(mx < my);
        if ex > 0 {
            let p = pow2((ex - 1) as nat);
            lemma_pow2_pos((ex - 1) as nat);
            assert((0x80_0000 + mx) * p < (0x80_0000 + my) * p) by (nonlinear_arith)
                requires
                    mx < my,
                    p > 0,
            ;
        }
    } else {
        let q = pow2((ey - 1) as nat);
        lemma_pow2_pos((ey - 1) as nat);
        assert(0x80_0000 * q <= (0x80_0000 + my) * q) by (nonlinear_arith)
            requires
                q > 0,
        ;
        if ex == 0 {
            assert(0x80_0000 <= 0x80_0000 * q) by (nonlinear_arith)
                requires
                    q >= 1,
            ;
        } else {
            let p = pow2((ex - 1) as nat);
            lemma_pow2_pos((ex - 1) as nat);
            lemma_pow2_unfold(ex);
            if ex < ey - 1 {
                lemma_pow2_strictly_increases(ex, (ey - 1) as nat);
            }
            assert(pow2(ex) <= q);
            assert((0x80_0000 + mx) * p < 0x80_0000 * q) by (nonlinear_arith)
                requires
                    mx < 0x80_0000,
                    p > 0,
                    2 * p <= q,
            ;
        }
    }
}

/// The ranking key orders CPU shares as their values: of two non-negative
/// shares (NaN aside, `+∞` and values above 100 included), the greater one has
/// the greater key, equal shares have equal keys, and a negative zero ranks as zero.
pub proof fn lemma_cpu_rank_key_orders_values(x: u32, y: u32)
    requires
        f32_non_negative(x),
        f32_non_negative(y),
    ensures
        f32_greater(x, y) ==> cpu_rank_key(x) > cpu_rank_key(y),
        x != f32_infinity() && y != f32_infinity() && f32_scaled_value(x) == f32_scaled_value(y)
            ==> cpu_rank_key(x) == cpu_rank_key(y),
        cpu_rank_key(0x8000_0000) == cpu_rank_key(0),
{
    if x < y && y < f32_infinity() {
        lemma_f32_value_increasing(x, y);
    }
    if y < x && x < f32_infinity() {
        lemma_f32_value_increasing(y, x);
    }
}

/// In the ranking, a row whose CPU share is greater (as an `f32` value, both
/// shares non-negative and not NaN) comes before a row whose share is smaller.
pub proof fn lemma_greater_share_ranks_first(rows: Seq<ProcessRowView>, i: int, j: int)
    requires
        0 <= i < rows.len(),
        0 <= j < rows.len(),
        f32_non_negative(rows[i].cpu_bits),
        f32_non_negative(rows[j].cpu_bits),
        f32_greater(rows[i].cpu_bits, rows[j].cpu_bits),
    ensures
        rank(cpu_keys(rows), i) < rank(cpu_keys(rows), j),
{
    lemma_cpu_rank_key_orders_values(rows[i].cpu_bits, rows[j].cpu_bits);
    let keys = cpu_keys(rows);
    assert(keys[i] == cpu_rank_key(rows[i].cpu_bits));
    assert(keys[j] == cpu_rank_key(rows[j].cpu_bits));
    lemma_rank_order(keys, i, j);
}

fn copy_row(r: &ProcessRow) -> (c: ProcessRow)
    ensures
        c@ == r@,
{
    ProcessRow { pid: r.pid, name: r.name.clone(), cpu_bits: r.cpu_bits, memory_bytes: r.memory_bytes }
}

/// The `limit` busiest rows (all of them, where there are fewer), busiest first,
/// rows of equal CPU share in their given order: the given rows sorted by CPU
/// share, highest first, by a stable sort, and cut to `limit`.
pub fn collect_top(rows: Vec<ProcessRow>, limit: usize) -> (top: Vec<ProcessRow>)
    ensures
        top.len() == if limit < rows.len() {
            limit as int
        } else {
            rows.len() as int
        },
        forall|i: int|
            0 <= i < rows.len() && rank(cpu_keys(rows_view(rows@)), i) < top.len() ==> (#[trigger] top@[rank(
                cpu_keys(rows_view(rows@)),
                i,
            ) as int])@ == rows@[i]@,
        forall|p: int, q: int|
            0 <= p < q < top.len() ==> cpu_rank_key((#[trigger] top@[p]).cpu_bits) >= cpu_rank_key(
                (#[trigger] top@[q]).cpu_bits,
            ),
{
    let n = rows.len();
    let ghost keys = cpu_keys(rows_view(rows@));
    let mut key_vec: Vec<u32> = Vec::new();
    for i in 0..n
        invariant
            n == rows.len(),
            keys == cpu_keys(rows_view(rows@)),
            key_vec@ == keys.take(i as int),
    {
        let bits = rows[i].cpu_bits;
        key_vec.push(if bits <= 0x7F80_0000 {
            bits
        } else {
            0
        });
        assert(key_vec@ =~= keys.take(i + 1));
    }
    assert(key_vec@ =~= keys);
    let mut ranks: Vec<usize> = Vec::new();
    for i in 0..n
        invariant
            n == rows.len() == key_vec.len(),
            key_vec@ == keys,
            ranks.len() == i,
            forall|k: int| 0 <= k < i ==> #[trigger] ranks@[k] == rank(keys, k),
    {
        let mut count: usize = 0;
        for j in 0..n
            invariant
                n == key_vec.len(),
                key_vec@ == keys,
                i < n,
                count == count_before(keys, i as int, j as int),
                count <= j,
        {
            if key_vec[j] > key_vec[i] || (key_vec[j] == key_vec[i] && j < i) {
                count += 1;
            }
        }
        ranks.push(count);
    }
    let len = if limit < n {
        limit
    } else {
        n
    };
    let mut top: Vec<ProcessRow> = Vec::new();
    for k in 0..len
        invariant
            len <= n == rows.len(),
            top.len() == k,
    {
        top.push(copy_row(&rows[k]));
    }
    for i in 0..n
        invariant
            n == rows.len() == ranks.len(),
            keys == cpu_keys(rows_view(rows@)),
            keys.len() == n,
            top.len() == len,
            forall|k: int| 0 <= k < n ==> #[trigger] ranks@[k] == rank(keys, k),
            forall|k: int|
                0 <= k < i && rank(keys, k) < len ==> (#[trigger] top@[rank(keys, k) as int])@
                    == rows@[k]@,
    {
        let r = ranks[i];
        if r < len {
            let ghost before = top@;
            top.set(r, copy_row(&rows[i]));
            assert forall|k: int| 0 <= k < i + 1 && rank(keys, k) < len implies (#[trigger] top@[rank(
                keys,
                k,
            ) as int])@ == rows@[k]@ by {
                if k != i {
                    lemma_rank_order(keys, k, i as int);
                    assert(top@[rank(keys, k) as int] == before[rank(keys, k) as int]);
                }
            }
        }
    }
    proof {
        assert forall|p: int, q: int| 0 <= p < q < top.len() implies cpu_rank_key(
            (#[trigger] top@[p]).cpu_bits,
        ) >= cpu_rank_key((#[trigger] top@[q]).cpu_bits) by {
            lemma_rank_onto(keys, p);
            lemma_rank_onto(keys, q);
            let a = choose|a: int| 0 <= a < keys.len() && rank(keys, a) == p;
            let b = choose|b: int| 0 <= b < keys.len() && rank(keys, b) == q;
            lemma_rank_order(keys, a, b);
            lemma_rank_order(keys, b, a);
            assert(top@[p]@ == rows@[a]@);
            assert(top@[q]@ == rows@[b]@);
            assert(keys[a] == cpu_rank_key(rows@[a].cpu_bits));
            assert(keys[b] == cpu_rank_key(rows@[b].cpu_bits));
        }
    }
    top
}


/// The bytes of a text in UTF-8.
pub open spec fn utf8_bytes(s: Seq<char>) -> Seq<u8> {
    encode_utf8(s)
}

/// A process name as the process table shows it: names of more than 20 bytes
/// (UTF-8) are cut after their 19th byte and get an ellipsis.
pub open spec fn short_name_text(name: Seq<char>) -> Seq<char> {
    if utf8_bytes(name).len() > 20 {
        decode_utf8(utf8_bytes(name).take(19)) + "…"@
    } else {
        name
    }
}

/// A name of at most 20 bytes is shown whole. A longer one is shown as its
/// start, 19 bytes long in UTF-8, followed by an ellipsis.
pub proof fn lemma_short_name_prefix(name: Seq<char>)
    requires
        utf8_bytes(name).len() > 20 ==> is_char_boundary(utf8_bytes(name), 19),
    ensures
        utf8_bytes(name).len() <= 20 ==> short_name_text(name) == name,
        utf8_bytes(name).len() > 20 ==> {
            let shown = short_name_text(name);
            let head = shown.drop_last();
            &&& shown.last() == '…'
            &&& utf8_bytes(head).len() == 19
            &&& head.len() <= name.len()
            &&& name.take(head.len() as int) == head
        },
{
    if utf8_bytes(name).len() > 20 {
        let b = utf8_bytes(name);
        encode_utf8_valid_utf8(name);
        encode_utf8_decode_utf8(name);
        decode_utf8_split(b, 19);
        let head = decode_utf8(b.subrange(0, 19));
        let rest = decode_utf8(b.subrange(19, b.len() as int));
        assert(b.take(19) =~= b.subrange(0, 19));
        assert(name == head + rest);
        vstd::utf8::valid_utf8_split(b, 19);
        decode_utf8_encode_utf8(b.subrange(0, 19));
        reveal_strlit("…");
        let shown = short_name_text(name);
        assert(shown.drop_last() =~= head);
        assert(name.take(head.len() as int) =~= head);
    }
}

/// Shortens a process name for the process table. A name of more than 20 bytes
/// must have a character boundary after its 19th byte (the byte length of a
/// `str` always fits in a `usize`).
pub fn short_process_name(name: &str) -> (res: String)
    requires
        utf8_bytes(name@).len() <= usize::MAX,
        utf8_bytes(name@).len() > 20 ==> is_char_boundary(utf8_bytes(name@), 19),
    ensures
        res@ == short_name_text(name@),
{
    broadcast use vstd::utf8::encode_utf8_valid_utf8, vstd::utf8::encode_utf8_decode_utf8;

    if name.len() > 20 {
        let (head, _) = name.split_at(19);
        let mut out = String::from_str(head);
        out.append("…");
        proof {
            let b = utf8_bytes(name@);
            assert(head.spec_bytes() =~= b.subrange(0, 19));
            assert(b.take(19) =~= b.subrange(0, 19));
            assert(decode_utf8(encode_utf8(head@)) == head@);
            assert(head@ == decode_utf8(b.take(19)));
            assert(out@ =~= decode_utf8(b.take(19)) + "…"@);
        }
        out
    } else {
        String::from_str(name)
    }
}

} // verus!
