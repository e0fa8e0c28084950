//! Finding a simple framebuffer in the device tree, for the boot screen.
use vstd::prelude::*;
use crate::text;

verus! {

/// A `compatible` value of a framebuffer that the simpledrm driver serves.
pub open spec fn simpledrm_compatible(compat: Seq<char>) -> bool {
    text::contains_seq(compat, "simpledrm"@) || text::contains_seq(compat, "simple-framebuffer"@)
}

/// Whether a node's `compatible` value names a simple framebuffer.
pub fn is_simpledrm_compatible(compat: &str) -> (r: bool)
    ensures
        r == simpledrm_compatible(compat@),
{
    let v = text::chars_of(compat);
    let a = text::chars_of("simpledrm");
    let b = text::chars_of("simple-framebuffer");
    proof {
        assert(v@.subrange(0, v@.len() as int) =~= v@);
    }
    text::contains_at(&v, 0, v.len(), &a) || text::contains_at(&v, 0, v.len(), &b)
}

/// The big-endian 32-bit number at `b[i..i + 4]`.
pub open spec fn be_u32_at(b: Seq<u8>, i: int) -> int {
    b[i] * 16777216 + b[i + 1] * 65536 + b[i + 2] * 256 + b[i + 3]
}

/// A blob whose header `fdt::Fdt::new` accepts: the 40 bytes of the header are
/// there, it starts with the magic number `0xd00dfeed`, and the blob holds at
/// least the total size that the header gives.
pub open spec fn fdt_header_accepted(b: Seq<u8>) -> bool {
    b.len() >= 40 && be_u32_at(b, 0) == 0xd00dfeed && b.len() >= be_u32_at(b, 4)
}

/// The structure block of a blob, as its header places it.
pub open spec fn struct_block(b: Seq<u8>) -> Seq<u8> {
    b.subrange(be_u32_at(b, 8), be_u32_at(b, 8) + be_u32_at(b, 36))
}

/// The strings block of a blob, as its header places it.
pub open spec fn strings_block(b: Seq<u8>) -> Seq<u8> {
    b.subrange(be_u32_at(b, 12), be_u32_at(b, 12) + be_u32_at(b, 32))
}

/// `n` rounded up to a multiple of four.
pub open spec fn align4(n: int) -> int {
    (n + 3) / 4 * 4
}

/// The index of the first NUL in `s` at or after `i`; none when there is none.
pub open spec fn cstr_end(s: Seq<u8>, i: int) -> Option<int>
    decreases s.len() - i,
{
    if i < 0 || i >= s.len() {
        None
    } else if s[i] == 0 {
        Some(i)
    } else {
        cstr_end(s, i + 1)
    }
}

/// The NUL that ends a name lies inside the block, at or after the name's start.
pub proof fn lemma_cstr_end_bounds(s: Seq<u8>, i: int)
    ensures
        cstr_end(s, i) matches Some(k) ==> i <= k < s.len() && s[k] == 0,
    decreases s.len() - i,
{
    if 0 <= i < s.len() && s[i] != 0 {
        lemma_cstr_end_bounds(s, i + 1);
    }
}

/// The end of a name starting at `i` in `s` that reads as text: the index of
/// the NUL that ends it, when the bytes before that NUL are UTF-8.
pub open spec fn text_name_end(s: Seq<u8>, i: int) -> Option<int> {
    match cstr_end(s, i) {
        Some(k) => if vstd::utf8::valid_utf8(s.subrange(i, k)) {
            Some(k)
        } else {
            None
        },
        None => None,
    }
}

/// The first position at or after `p` that does not hold an `FDT_NOP` token (4).
pub open spec fn skip_nops(s: Seq<u8>, p: int) -> int
    decreases s.len() - p,
{
    if 0 <= p && p + 4 <= s.len() && be_u32_at(s, p) == 4 {
        skip_nops(s, p + 4)
    } else {
        p
    }
}

/// Skipping `FDT_NOP` tokens stays inside the block.
pub proof fn lemma_skip_nops_bounds(s: Seq<u8>, p: int)
    requires
        0 <= p <= s.len(),
    ensures
        p <= skip_nops(s, p) <= s.len(),
    decreases s.len() - p,
{
    if p + 4 <= s.len() && be_u32_at(s, p) == 4 {
        lemma_skip_nops_bounds(s, p + 4);
    }
}

/// `p + n`, or the end of `s` when that lies beyond it: where the crate's reader
/// stands after skipping `n` bytes from `p`.
pub open spec fn skip_to(s: Seq<u8>, p: int, n: int) -> int {
    if p + n <= s.len() {
        p + n
    } else {
        s.len() as int
    }
}

/// An `FDT_PROP` token at `p` that the crate parses without panicking: its
/// length and name offset are there, its value fits in the structure block `s`,
/// and its name, in the strings block `t`, ends in a NUL and reads as text.
pub open spec fn prop_ok(s: Seq<u8>, t: Seq<u8>, p: int) -> bool {
    &&& p + 12 <= s.len()
    &&& be_u32_at(s, p + 4) <= s.len() - (p + 12)
    &&& text_name_end(t, be_u32_at(s, p + 8)) is Some
}

/// Where the reader stands after the property at `p`.
pub open spec fn prop_next(s: Seq<u8>, p: int) -> int {
    skip_to(s, p + 12, align4(be_u32_at(s, p + 4)))
}

/// The bytes of the name `compatible`.
pub open spec fn compatible_name() -> Seq<u8> {
    seq![99u8, 111u8, 109u8, 112u8, 97u8, 116u8, 105u8, 98u8, 108u8, 101u8]
}

/// The property at `p` is named `compatible`.
pub open spec fn prop_is_compatible(s: Seq<u8>, t: Seq<u8>, p: int) -> bool {
    match text_name_end(t, be_u32_at(s, p + 8)) {
        Some(k) => t.subrange(be_u32_at(s, p + 8), k) == compatible_name(),
        None => false,
    }
}

/// The search for a node's `compatible` property, from `p` (where the node's
/// properties begin), goes without a panic: it skips `FDT_NOP` tokens before
/// each property and parses properties until one is named `compatible`, or
/// until something other than a property, or the end of the block, comes.
pub open spec fn compatible_scan_ok(s: Seq<u8>, t: Seq<u8>, p: int) -> bool
    decreases s.len() - p,
{
    if p < 0 || p > s.len() {
        false
    } else {
        let q = skip_nops(s, p);
        if q + 4 > s.len() || be_u32_at(s, q) != 3 {
            true
        } else if !prop_ok(s, t, q) {
            false
        } else if prop_is_compatible(s, t, q) {
            true
        } else {
            proof {
                lemma_skip_nops_bounds(s, p);
            }
            compatible_scan_ok(s, t, prop_next(s, q))
        }
    }
}

/// The walk of the `fdt` crate over the nodes, and the search for the
/// `compatible` property of each node it hands out, go without a panic from
/// position `p` of the structure block `s` (with the strings block `t`), with
/// `open` nodes open, up to and including the search in the node that it hands
/// out as number `left` from here (0 for the next one), or to the walk's end.
/// Between nodes (`in_props` false) the walk closes nodes at `FDT_END_NODE`
/// tokens (2; one with no open node is a panic), stops at `FDT_END` (5), skips
/// `FDT_NOP` tokens (4), and stops quietly at any token but `FDT_BEGIN_NODE`
/// (1); at one, the node's name must end in a NUL and read as text, and at most
/// 63 nodes may be open. Inside a node (`in_props`, its
/// properties beginning at `node`) the walk parses `FDT_PROP` tokens (3); at any
/// other token it hands the node out and goes on between nodes. It stops quietly
/// wherever fewer than four bytes are left.
pub open spec fn fdt_walk_ok(
    s: Seq<u8>,
    t: Seq<u8>,
    p: int,
    open: int,
    node: int,
    in_props: bool,
    left: int,
) -> bool
    decreases s.len() - p, (if in_props { 1int } else { 0int }),
{
    if p < 0 || p > s.len() {
        false
    } else if p + 4 > s.len() {
        true
    } else if in_props {
        if be_u32_at(s, p) == 3 {
            prop_ok(s, t, p) && fdt_walk_ok(s, t, prop_next(s, p), open, node, true, left)
        } else {
            compatible_scan_ok(s, t, node) && (left == 0 || fdt_walk_ok(s, t, p, open, node, false, left - 1))
        }
    } else {
        let tag = be_u32_at(s, p);
        if tag == 2 {
            open > 0 && fdt_walk_ok(s, t, p + 4, open - 1, node, false, left)
        } else if tag == 5 {
            true
        } else {
            proof {
                lemma_skip_nops_bounds(s, p);
            }
            let q = skip_nops(s, p);
            if q + 4 > s.len() || be_u32_at(s, q) != 1 {
                true
            } else {
                match text_name_end(s, q + 4) {
                    Some(k) => {
                        proof {
                            lemma_cstr_end_bounds(s, q + 4);
                        }
                        let start = skip_to(s, q + 4, align4(k - (q + 4) + 1));
                        proof {
                            lemma_skip_nops_bounds(s, start);
                        }
                        open < 63 && fdt_walk_ok(s, t, skip_nops(s, start), open + 1, start, true, left)
                    },
                    None => false,
                }
            }
        }
    }
}

/// The strings block of a blob when it lies inside the blob; otherwise nothing
/// (the crate panics at the first property name it looks up).
pub open spec fn strings_in_blob(b: Seq<u8>) -> Seq<u8> {
    if be_u32_at(b, 12) + be_u32_at(b, 32) <= b.len() {
        strings_block(b)
    } else {
        Seq::empty()
    }
}

/// A blob that the `fdt` crate reads without a panic through the search for the
/// `compatible` property of node number `node` (counting from 0, depth first):
/// a header that `Fdt::new` accepts, a structure block inside the blob, and a
/// walk from its start that goes without a panic that far (see `fdt_walk_ok`).
pub open spec fn fdt_readable_to(b: Seq<u8>, node: int) -> bool {
    &&& fdt_header_accepted(b)
    &&& be_u32_at(b, 8) + be_u32_at(b, 36) <= b.len()
    &&& fdt_walk_ok(struct_block(b), strings_in_blob(b), 0, 0, 0, false, node)
}

proof fn lemma_walk_fewer_nodes(
    s: Seq<u8>,
    t: Seq<u8>,
    p: int,
    open: int,
    node: int,
    in_props: bool,
    left: int,
)
    requires
        0 <= left,
        fdt_walk_ok(s, t, p, open, node, in_props, left + 1),
    ensures
        fdt_walk_ok(s, t, p, open, node, in_props, left),
    decreases s.len() - p, (if in_props { 1int } else { 0int }),
{
    if p < 0 || p > s.len() || p + 4 > s.len() {
    } else if in_props {
        if be_u32_at(s, p) == 3 {
            lemma_walk_fewer_nodes(s, t, prop_next(s, p), open, node, true, left);
        } else if left > 0 {
            lemma_walk_fewer_nodes(s, t, p, open, node, false, left - 1);
        }
    } else {
        let tag = be_u32_at(s, p);
        if tag == 2 {
            lemma_walk_fewer_nodes(s, t, p + 4, open - 1, node, false, left);
        } else if tag != 5 {
            lemma_skip_nops_bounds(s, p);
            let q = skip_nops(s, p);
            if q + 4 <= s.len() && be_u32_at(s, q) == 1 {
                if let Some(k) = text_name_end(s, q + 4) {
                    lemma_cstr_end_bounds(s, q + 4);
                    let start = skip_to(s, q + 4, align4(k - (q + 4) + 1));
                    lemma_skip_nops_bounds(s, start);
                    lemma_walk_fewer_nodes(s, t, skip_nops(s, start), open + 1, start, true, left);
                }
            }
        }
    }
}

/// Reading a blob without a panic through a node reads it without a panic
/// through every earlier node.
pub proof fn lemma_readable_to_earlier_node(b: Seq<u8>, i: int, j: int)
    requires
        0 <= i <= j,
        fdt_readable_to(b, j),
    ensures
        fdt_readable_to(b, i),
    decreases j - i,
{
    if i < j {
        lemma_walk_fewer_nodes(struct_block(b), strings_in_blob(b), 0, 0, 0, false, j - 1);
        lemma_readable_to_earlier_node(b, i, j - 1);
    }
}

/// What the `fdt` crate reads of node number `i` (counting from 0, depth
/// first) of a device tree blob: its `compatible` property as text without its
/// trailing NULs (none for a node without one, or whose value is not UTF-8);
/// none at all when the crate hands out fewer nodes.
pub uninterp spec fn dtb_compatible_at(dtb: Seq<u8>, i: int) -> Option<Option<Seq<char>>>;

/// The character view of a node's optional `compatible` text.
pub open spec fn opt_text_view(v: Option<Option<String>>) -> Option<Option<Seq<char>>> {
    match v {
        Some(Some(c)) => Some(Some(c@)),
        Some(None) => Some(None),
        None => None,
    }
}

/// `fdt::Fdt::new`, then `Fdt::all_nodes().nth(i)`, and for that node
/// `FdtNode::property("compatible")` read by `NodeProperty::as_str`: the
/// `compatible` value of node number `i`. The result depends on the bytes and
/// `i` alone. The crate hands out a node only after reading its four-byte
/// `FDT_BEGIN_NODE` token and the NUL that ends its name, each node further on
/// in the structure block than the one before, so node number `i` exists only in
/// a blob longer than `i` bytes. On a blob that `fdt_readable_to(dtb, i)` accepts none
/// of these calls panics: `fdt_walk_ok` follows the crate's walk token by token
/// and rules out each of its panics (a name without a NUL or not UTF-8, a
/// property cut short or named outside the strings block, an end of node with
/// no node open, more than 63 nodes open).
#[verifier::external_body]
fn compatible_value_at(dtb: &[u8], i: usize) -> (r: Option<Option<String>>)
    requires
        fdt_readable_to(dtb@, i as int),
    ensures
        opt_text_view(r) == dtb_compatible_at(dtb@, i as int),
        r is Some ==> i < dtb@.len(),
{
    match fdt::Fdt::new(dtb) {
        Ok(f) => f.all_nodes().nth(i).map(
            |n| n.property("compatible").and_then(|p| p.as_str()).map(|c| c.to_string()),
        ),
        Err(_) => None,
    }
}

/// `std::str::from_utf8`: whether the bytes are UTF-8, which is exactly when
/// the call succeeds.
#[verifier::external_body]
fn is_utf8(b: &[u8]) -> (r: bool)
    ensures
        r == vstd::utf8::valid_utf8(b@),
{
    std::str::from_utf8(b).is_ok()
}

/// The big-endian 32-bit number at `b[i..i + 4]`.
fn read_be32(b: &[u8], i: usize) -> (r: u32)
    requires
        i + 4 <= b@.len(),
    ensures
        r == be_u32_at(b@, i as int),
{
    b[i] as u32 * 16777216 + b[i + 1] as u32 * 65536 + b[i + 2] as u32 * 256 + b[i + 3] as u32
}

/// The big-endian 32-bit number at `p` in the block `b[base..base + len]`.
fn read_be32_in(b: &[u8], base: usize, len: usize, p: usize) -> (r: u32)
    requires
        base + len <= b@.len(),
        p + 4 <= len,
    ensures
        r == be_u32_at(b@.subrange(base as int, base + len), p as int),
{
    let ghost s = b@.subrange(base as int, base + len);
    let blen = b.len();
    proof {
        assert(s[p as int] == b@[base + p]);
        assert(s[p + 1] == b@[base + p + 1]);
        assert(s[p + 2] == b@[base + p + 2]);
        assert(s[p + 3] == b@[base + p + 3]);
    }
    read_be32(b, base + p)
}

/// `text_name_end` of the block `b[base..base + len]` from `i`.
fn text_name_at(b: &[u8], base: usize, len: usize, i: usize) -> (r: Option<usize>)
    requires
        base + len <= b@.len(),
    ensures
        match r {
            Some(k) => i <= k < len && text_name_end(b@.subrange(base as int, base + len), i as int)
                == Some(k as int),
            None => text_name_end(b@.subrange(base as int, base + len), i as int) is None,
        },
{
    let ghost s = b@.subrange(base as int, base + len);
    let blen = b.len();
    let mut j = i;
    while j < len
        invariant
            blen == b@.len(),
            base + len <= b@.len(),
            s == b@.subrange(base as int, base + len),
            i <= j,
            cstr_end(s, i as int) == cstr_end(s, j as int),
        decreases len - j,
    {
        let c = b[base + j];
        proof {
            assert(s[j as int] == c);
        }
        if c == 0 {
            let name = vstd::slice::slice_subrange(b, base + i, base + j);
            proof {
                assert(name@ =~= s.subrange(i as int, j as int));
            }
            if is_utf8(name) {
                return Some(j);
            } else {
                return None;
            }
        }
        j = j + 1;
    }
    None
}

/// `skip_nops` in the block `b[base..base + len]` from `p`.
fn skip_nops_at(b: &[u8], base: usize, len: usize, p: usize) -> (q: usize)
    requires
        base + len <= b@.len(),
        p <= len,
    ensures
        q == skip_nops(b@.subrange(base as int, base + len), p as int),
        p <= q <= len,
{
    let ghost s = b@.subrange(base as int, base + len);
    let mut q = p;
    while len - q >= 4
        invariant
            base + len <= b@.len(),
            s == b@.subrange(base as int, base + len),
            p <= q <= len,
            skip_nops(s, p as int) == skip_nops(s, q as int),
        decreases len - q,
    {
        if read_be32_in(b, base, len, q) != 4 {
            return q;
        }
        q = q + 4;
    }
    q
}

/// `prop_ok` of the property at `p` in the structure block `b[s_base..s_base + s_len]`,
/// with the strings block `b[t_base..t_base + t_len]`.
fn prop_check(b: &[u8], s_base: usize, s_len: usize, t_base: usize, t_len: usize, p: usize) -> (r: bool)
    requires
        s_base + s_len <= b@.len(),
        t_base + t_len <= b@.len(),
        p + 4 <= s_len,
    ensures
        r == prop_ok(
            b@.subrange(s_base as int, s_base + s_len),
            b@.subrange(t_base as int, t_base + t_len),
            p as int,
        ),
{
    if s_len - p < 12 {
        return false;
    }
    let vlen = read_be32_in(b, s_base, s_len, p + 4);
    let noff = read_be32_in(b, s_base, s_len, p + 8);
    if vlen as usize > s_len - (p + 12) {
        return false;
    }
    match text_name_at(b, t_base, t_len, noff as usize) {
        Some(_) => true,
        None => false,
    }
}

/// `prop_next` of the property at `p` in the block `b[s_base..s_base + s_len]`.
fn next_prop(b: &[u8], s_base: usize, s_len: usize, p: usize) -> (r: usize)
    requires
        s_base + s_len <= b@.len(),
        p + 12 <= s_len,
        be_u32_at(b@.subrange(s_base as int, s_base + s_len), p + 4) <= s_len - (p + 12),
    ensures
        r == prop_next(b@.subrange(s_base as int, s_base + s_len), p as int),
        p < r <= s_len,
{
    let vlen = read_be32_in(b, s_base, s_len, p + 4) as usize;
    let step = (vlen + 3) / 4 * 4;
    if step > s_len - (p + 12) {
        s_len
    } else {
        p + 12 + step
    }
}

/// The byte at `j` of the name `compatible`.
fn compatible_byte(j: usize) -> (r: u8)
    requires
        j < 10,
    ensures
        r == compatible_name()[j as int],
{
    if j == 0 {
        99
    } else if j == 1 {
        111
    } else if j == 2 {
        109
    } else if j == 3 {
        112
    } else if j == 4 {
        97
    } else if j == 5 {
        116
    } else if j == 6 {
        105
    } else if j == 7 {
        98
    } else if j == 8 {
        108
    } else {
        101
    }
}

/// Whether `b[base + i..base + k]`, inside the block `b[base..base + len]`, is
/// the name `compatible`.
fn is_compatible_name(b: &[u8], base: usize, len: usize, i: usize, k: usize) -> (r: bool)
    requires
        base + len <= b@.len(),
        i <= k <= len,
    ensures
        r == (b@.subrange(base as int, base + len).subrange(i as int, k as int) == compatible_name()),
{
    let ghost x = b@.subrange(base as int, base + len).subrange(i as int, k as int);
    if k - i != 10 {
        proof {
            assert(x.len() != compatible_name().len());
        }
        return false;
    }
    let blen = b.len();
    let mut j: usize = 0;
    while j < 10
        invariant
            blen == b@.len(),
            base + len <= b@.len(),
            i <= k <= len,
            k - i == 10,
            x == b@.subrange(base as int, base + len).subrange(i as int, k as int),
            j <= 10,
            forall|y: int| 0 <= y < j ==> x[y] == compatible_name()[y],
        decreases 10 - j,
    {
        let c = b[base + i + j];
        proof {
            assert(x[j as int] == c);
        }
        if c != compatible_byte(j) {
            proof {
                assert(x[j as int] != compatible_name()[j as int]);
            }
            return false;
        }
        j = j + 1;
    }
    proof {
        assert(x =~= compatible_name());
    }
    true
}

/// `compatible_scan_ok` from `p` in the structure block `b[s_base..s_base + s_len]`,
/// with the strings block `b[t_base..t_base + t_len]`.
fn compatible_scan_check(b: &[u8], s_base: usize, s_len: usize, t_base: usize, t_len: usize, p: usize) -> (r: bool)
    requires
        s_base + s_len <= b@.len(),
        t_base + t_len <= b@.len(),
        p <= s_len,
    ensures
        r == compatible_scan_ok(
            b@.subrange(s_base as int, s_base + s_len),
            b@.subrange(t_base as int, t_base + t_len),
            p as int,
        ),
{
    let ghost s = b@.subrange(s_base as int, s_base + s_len);
    let ghost t = b@.subrange(t_base as int, t_base + t_len);
    let mut pos = p;
    loop
        invariant
            s_base + s_len <= b@.len(),
            t_base + t_len <= b@.len(),
            s == b@.subrange(s_base as int, s_base + s_len),
            t == b@.subrange(t_base as int, t_base + t_len),
            pos <= s_len,
            compatible_scan_ok(s, t, p as int) == compatible_scan_ok(s, t, pos as int),
        decreases s_len - pos,
    {
        let q = skip_nops_at(b, s_base, s_len, pos);
        if s_len - q < 4 {
            return true;
        }
        if read_be32_in(b, s_base, s_len, q) != 3 {
            return true;
        }
        if !prop_check(b, s_base, s_len, t_base, t_len, q) {
            return false;
        }
        let noff = read_be32_in(b, s_base, s_len, q + 8) as usize;
        match text_name_at(b, t_base, t_len, noff) {
            Some(k) => {
                if is_compatible_name(b, t_base, t_len, noff, k) {
                    return true;
                }
            },
            None => {
                return false;
            },
        }
        pos = next_prop(b, s_base, s_len, q);
    }
}

/// Whether the `fdt` crate reads the blob without a panic through node number
/// `node` (see `fdt_readable_to`).
pub fn fdt_readable_through(dtb: &[u8], node: usize) -> (r: bool)
    ensures
        r == fdt_readable_to(dtb@, node as int),
{
    let n = dtb.len();
    if n < 40 {
        return false;
    }
    let magic = read_be32(dtb, 0);
    let total = read_be32(dtb, 4);
    if magic != 0xd00dfeed || (total as u64) > (n as u64) {
        return false;
    }
    let off_s = read_be32(dtb, 8) as u64;
    let size_s = read_be32(dtb, 36) as u64;
    let off_t = read_be32(dtb, 12) as u64;
    let size_t = read_be32(dtb, 32) as u64;
    if off_s + size_s > n as u64 {
        return false;
    }
    let s_base = off_s as usize;
    let s_len = size_s as usize;
    let strings_inside = off_t + size_t <= n as u64;
    let t_base: usize = if strings_inside { off_t as usize } else { 0 };
    let t_len: usize = if strings_inside { size_t as usize } else { 0 };
    let ghost s = struct_block(dtb@);
    let ghost t = strings_in_blob(dtb@);
    proof {
        assert(s == dtb@.subrange(s_base as int, s_base + s_len));
        assert(t =~= dtb@.subrange(t_base as int, t_base + t_len));
    }
    let mut pos: usize = 0;
    let mut open: usize = 0;
    let mut start: usize = 0;
    let mut in_props = false;
    let mut left: usize = node;
    loop
        invariant
            n == dtb@.len(),
            s_base + s_len <= dtb@.len(),
            t_base + t_len <= dtb@.len(),
            s == dtb@.subrange(s_base as int, s_base + s_len),
            t == dtb@.subrange(t_base as int, t_base + t_len),
            pos <= s_len,
            start <= s_len,
            open <= 63,
            fdt_readable_to(dtb@, node as int) == fdt_walk_ok(
                s,
                t,
                pos as int,
                open as int,
                start as int,
                in_props,
                left as int,
            ),
        decreases 2 * (s_len - pos) + (if in_props { 1int } else { 0int }),
    {
        if s_len - pos < 4 {
            return true;
        }
        let tag = read_be32_in(dtb, s_base, s_len, pos);
        if in_props {
            if tag == 3 {
                if !prop_check(dtb, s_base, s_len, t_base, t_len, pos) {
                    return false;
                }
                pos = next_prop(dtb, s_base, s_len, pos);
            } else {
                if !compatible_scan_check(dtb, s_base, s_len, t_base, t_len, start) {
                    return false;
                }
                if left == 0 {
                    return true;
                }
                left = left - 1;
                in_props = false;
            }
        } else if tag == 2 {
            if open == 0 {
                return false;
            }
            pos = pos + 4;
            open = open - 1;
        } else if tag == 5 {
            return true;
        } else {
            let q = skip_nops_at(dtb, s_base, s_len, pos);
            if s_len - q < 4 {
                return true;
            }
            if read_be32_in(dtb, s_base, s_len, q) != 1 {
                return true;
            }
            match text_name_at(dtb, s_base, s_len, q + 4) {
                Some(k) => {
                    if open >= 63 {
                        return false;
                    }
                    let step = (k - (q + 4) + 1 + 3) / 4 * 4;
                    start = if step > s_len - (q + 4) {
                        s_len
                    } else {
                        q + 4 + step
                    };
                    pos = skip_nops_at(dtb, s_base, s_len, start);
                    open = open + 1;
                    in_props = true;
                },
                None => {
                    return false;
                },
            }
        }
    }
}

/// Node number `j` of the blob is there and its `compatible` value, if any,
/// does not name a simple framebuffer.
pub open spec fn node_without_framebuffer(b: Seq<u8>, j: int) -> bool {
    dtb_compatible_at(b, j) matches Some(c) && !(c matches Some(x) && simpledrm_compatible(x))
}

/// Node number `i` is the first whose `compatible` value names a simple
/// framebuffer, and the `fdt` crate reads the blob through it without a panic.
pub open spec fn framebuffer_node_at(b: Seq<u8>, i: int) -> bool {
    &&& 0 <= i
    &&& fdt_readable_to(b, i)
    &&& forall|j: int| 0 <= j < i ==> #[trigger] node_without_framebuffer(b, j)
    &&& dtb_compatible_at(b, i) matches Some(Some(c)) && simpledrm_compatible(c)
}

/// The framebuffer device to draw on, given a node's `compatible` value (none
/// for a node without a textual one): `/dev/dri/card0` when it names a simple
/// framebuffer.
pub fn framebuffer_for(compat: &Option<String>) -> (r: Option<String>)
    ensures
        r is Some <==> (compat matches Some(c) && simpledrm_compatible(c@)),
        r matches Some(p) ==> p@ == "/dev/dri/card0"@,
{
    match compat {
        Some(c) => if is_simpledrm_compatible(c.as_str()) {
            Some(String::from_str("/dev/dri/card0"))
        } else {
            None
        },
        None => None,
    }
}

/// The framebuffer device to draw on for the device tree blob `dtb`: the nodes
/// are taken in the order the `fdt` crate hands them out, and the first whose
/// `compatible` value names a simple framebuffer gives `/dev/dri/card0`. None
/// when no node does, or when the crate would panic on the blob before it gets
/// there.
pub fn find_simpledrm_framebuffer(dtb: &[u8]) -> (r: Option<String>)
    ensures
        r is Some <==> exists|i: int| framebuffer_node_at(dtb@, i),
        r matches Some(p) ==> p@ == "/dev/dri/card0"@,
{
    let n = dtb.len();
    let mut i: usize = 0;
    loop
        invariant
            n == dtb@.len(),
            i <= dtb@.len(),
            forall|j: int| 0 <= j < i ==> #[trigger] node_without_framebuffer(dtb@, j),
        decreases dtb@.len() - i,
    {
        if !fdt_readable_through(dtb, i) {
            proof {
                assert forall|k: int| !framebuffer_node_at(dtb@, k) by {
                    if 0 <= i <= k && fdt_readable_to(dtb@, k) {
                        lemma_readable_to_earlier_node(dtb@, i as int, k);
                    }
                    if 0 <= k < i {
                        assert(node_without_framebuffer(dtb@, k));
                    }
                }
            }
            return None;
        }
        match compatible_value_at(dtb, i) {
            None => {
                proof {
                    assert forall|k: int| !framebuffer_node_at(dtb@, k) by {
                        if 0 <= k < i {
                            assert(node_without_framebuffer(dtb@, k));
                        }
                        if i < k {
                            assert(!node_without_framebuffer(dtb@, i as int));
                        }
                    }
                }
                return None;
            },
            Some(v) => {
                let found = framebuffer_for(&v);
                if found.is_some() {
                    proof {
                        assert(framebuffer_node_at(dtb@, i as int));
                    }
                    return found;
                }
                proof {
                    assert(node_without_framebuffer(dtb@, i as int));
                }
                i = i + 1;
            },
        }
    }
}

/// Draws the boot screen; without the `gui` feature (as this library is built)
/// there is nothing to draw.
pub fn init_and_render_gui() {
}

} // verus!
