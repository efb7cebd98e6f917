//! Binary decoder for firmware boot-variable payloads: UTF-16LE strings,
//! GUIDs in their mixed little-endian layout, and device-path node
//! sequences.
use crate::ascii::ascii_to_string;
use crate::ascii::contains_seq;
use crate::ascii::lower_seq;
use crate::le16;
use crate::read_le16;
use vstd::prelude::*;
use vstd::seq_lib::lemma_seq_skip_of_skip;
use vstd::slice::slice_subrange;
use vstd::slice::slice_to_vec;

verus! {

/// The sequence of UTF-16 code units held in a little-endian byte run, up
/// to (and excluding) the first NUL unit or the first incomplete pair.
pub open spec fn utf16_units(b: Seq<u8>) -> Seq<u16>
    decreases b.len(),
{
    if b.len() < 2 {
        Seq::empty()
    } else {
        let u = le16(b[0], b[1]);
        if u == 0 {
            Seq::empty()
        } else {
            seq![u as u16] + utf16_units(b.skip(2))
        }
    }
}

/// How many bytes the decoder consumes on this input: two per unit kept,
/// plus two for the terminator (also charged when the input runs out).
pub open spec fn utf16_consumed(b: Seq<u8>) -> int
    decreases b.len(),
{
    if b.len() < 2 {
        2
    } else if le16(b[0], b[1]) == 0 {
        2
    } else {
        2 + utf16_consumed(b.skip(2))
    }
}

/// The decoder always consumes at least the terminator's two bytes and at
/// most the whole input plus the two it charges when the input runs out.
pub proof fn lemma_utf16_consumed_bounds(b: Seq<u8>)
    ensures
        2 <= utf16_consumed(b) <= b.len() + 2,
    decreases b.len(),
{
    if b.len() >= 2 && le16(b[0], b[1]) != 0 {
        lemma_utf16_consumed_bounds(b.skip(2));
    }
}

/// One decoded code unit as an ASCII byte: values below 0x80 stand for
/// themselves, anything else degrades to a single space.
pub open spec fn unit_to_ascii(u: u16) -> u8 {
    if u < 128 {
        u as u8
    } else {
        32
    }
}

/// One decoded code unit as a character, same replacement rule.
pub open spec fn unit_to_char(u: u16) -> char {
    if u < 128 {
        u as char
    } else {
        ' '
    }
}

/// The decoded text of a UTF-16LE byte run, as ASCII bytes.
pub open spec fn decoded_ascii(b: Seq<u8>) -> Seq<u8> {
    utf16_units(b).map_values(|u: u16| unit_to_ascii(u))
}

/// The decoded text of a UTF-16LE byte run, as characters.
pub open spec fn decoded_chars(b: Seq<u8>) -> Seq<char> {
    utf16_units(b).map_values(|u: u16| unit_to_char(u))
}

/// Decodes the UTF-16 code units at the head of `buf`, together with the
/// number of bytes consumed.
pub fn char16_units(buf: &[u8]) -> (r: (Vec<u16>, usize))
    requires
        buf@.len() + 2 <= usize::MAX,
    ensures
        r.0@ == utf16_units(buf@),
        r.1 == utf16_consumed(buf@),
{
    let n: usize = buf.len();
    let mut out: Vec<u16> = Vec::new();
    let mut i: usize = 0;
    proof {
        assert(buf@.skip(0) =~= buf@);
        assert(Seq::<u16>::empty() + utf16_units(buf@) =~= utf16_units(buf@));
    }
    loop
        invariant
            i <= n,
            n == buf@.len(),
            n + 2 <= usize::MAX,
            utf16_units(buf@) == out@ + utf16_units(buf@.skip(i as int)),
            utf16_consumed(buf@) == i + utf16_consumed(buf@.skip(i as int)),
        decreases n - i,
    {
        if i + 1 < n {
            let u = read_le16(buf[i], buf[i + 1]);
            proof {
                lemma_seq_skip_of_skip(buf@, i as int, 2);
                assert(buf@.skip(i as int)[0] == buf@[i as int]);
                assert(buf@.skip(i as int)[1] == buf@[i as int + 1]);
            }
            if u == 0 {
                proof {
                    assert(utf16_units(buf@.skip(i as int)) =~= Seq::empty());
                    assert(out@ + Seq::<u16>::empty() =~= out@);
                }
                return (out, i + 2);
            }
            proof {
                assert(utf16_units(buf@.skip(i as int)) =~= seq![u] + utf16_units(
                    buf@.skip(i as int + 2),
                ));
                assert(out@ + (seq![u] + utf16_units(buf@.skip(i as int + 2))) =~= out@.push(u)
                    + utf16_units(buf@.skip(i as int + 2)));
            }
            out.push(u);
            i = i + 2;
        } else {
            proof {
                assert(buf@.skip(i as int).len() < 2);
                assert(utf16_units(buf@.skip(i as int)) =~= Seq::empty());
                assert(out@ + Seq::<u16>::empty() =~= out@);
            }
            return (out, i + 2);
        }
    }
}

/// Decodes a null-terminated UTF-16LE string into ASCII bytes (non-ASCII
/// units each become one space), plus the bytes consumed.
pub fn char16_to_ascii(buf: &[u8]) -> (r: (Vec<u8>, usize))
    requires
        buf@.len() + 2 <= usize::MAX,
    ensures
        r.0@ == decoded_ascii(buf@),
        r.1 == utf16_consumed(buf@),
{
    let (units, consumed) = char16_units(buf);
    let mut out: Vec<u8> = Vec::new();
    let mut i: usize = 0;
    while i < units.len()
        invariant
            i <= units@.len(),
            units@ == utf16_units(buf@),
            out@ == utf16_units(buf@).take(i as int).map_values(|u: u16| unit_to_ascii(u)),
        decreases units@.len() - i,
    {
        let u = units[i];
        if u < 128 {
            out.push(u as u8);
        } else {
            out.push(32);
        }
        proof {
            assert(utf16_units(buf@).take(i + 1 as int).map_values(|x: u16| unit_to_ascii(x))
                =~= utf16_units(buf@).take(i as int).map_values(|x: u16| unit_to_ascii(x)).push(
                unit_to_ascii(units@[i as int]),
            ));
        }
        i = i + 1;
    }
    proof {
        assert(utf16_units(buf@).take(units@.len() as int) =~= utf16_units(buf@));
    }
    (out, consumed)
}

/// Decodes a null-terminated UTF-16LE string: the decoded text (each
/// invalid or non-ASCII code unit replaced by a single space) and the byte
/// length consumed including the terminator.
pub fn char16_to_string(buf: &[u8]) -> (r: (String, usize))
    requires
        buf@.len() + 2 <= usize::MAX,
    ensures
        r.0@ == decoded_chars(buf@),
        r.1 == utf16_consumed(buf@),
{
    let (bytes, consumed) = char16_to_ascii(buf);
    proof {
        assert(forall|i: int| 0 <= i < bytes@.len() ==> bytes@[i] < 128) by {
            assert(forall|u: u16| unit_to_ascii(u) < 128);
        }
    }
    let s = ascii_to_string(bytes);
    proof {
        assert(s@ =~= decoded_chars(buf@)) by {
            let units = utf16_units(buf@);
            assert(s@.len() == units.len());
            assert(forall|i: int| 0 <= i < units.len() ==> s@[i] == unit_to_char(#[trigger] units[i]))
                by {
                assert(forall|u: u16| unit_to_ascii(u) as char == unit_to_char(u));
            }
        }
    }
    (s, consumed)
}

/// Every non-ASCII code unit decodes to exactly one space, in place: the
/// decoded text has one character per code unit, equal to the unit where it
/// is ASCII and a single space where it is not.
pub proof fn lemma_decode_replaces_non_ascii(b: Seq<u8>)
    ensures
        decoded_chars(b).len() == utf16_units(b).len(),
        forall|i: int|
            0 <= i < utf16_units(b).len() && #[trigger] utf16_units(b)[i] >= 128 ==> decoded_chars(
                b,
            )[i] == ' ',
        forall|i: int|
            0 <= i < utf16_units(b).len() && #[trigger] utf16_units(b)[i] < 128 ==> decoded_chars(
                b,
            )[i] as u16 == utf16_units(b)[i],
{
}

/// The 128-bit value of a GUID stored in its on-disk mixed-endian layout:
/// the first three fields little-endian, the final eight bytes in order.
pub open spec fn guid_u128(s: Seq<u8>) -> u128 {
    ((s[0] + 256 * s[1] + 65536 * s[2] + 16777216 * s[3]) * 0x1_00000000_00000000_00000000 + (s[4]
        + 256 * s[5]) * 0x10000_00000000_00000000 + (s[6] + 256 * s[7]) * 0x1_00000000_00000000 + s[8]
        * 0x100000000000000 + s[9] * 0x1000000000000 + s[10] * 0x10000000000 + s[11] * 0x100000000
        + s[12] * 0x1000000 + s[13] * 0x10000 + s[14] * 0x100 + s[15]) as u128
}

/// Reads the mixed-endian GUID held at `data[off..off + 16]`.
pub fn guid_at(data: &Vec<u8>, off: usize) -> (r: u128)
    requires
        off + 16 <= data@.len(),
    ensures
        r == guid_u128(data@.subrange(off as int, off + 16)),
{
    let n = data.len();
    let d0 = data[off] as u128 + 256 * (data[off + 1] as u128) + 65536 * (data[off + 2] as u128)
        + 16777216 * (data[off + 3] as u128);
    let d1 = data[off + 4] as u128 + 256 * (data[off + 5] as u128);
    let d2 = data[off + 6] as u128 + 256 * (data[off + 7] as u128);
    let tail = (data[off + 8] as u128) * 0x100000000000000 + (data[off + 9] as u128)
        * 0x1000000000000 + (data[off + 10] as u128) * 0x10000000000 + (data[off + 11] as u128)
        * 0x100000000 + (data[off + 12] as u128) * 0x1000000 + (data[off + 13] as u128) * 0x10000 + (
    data[off + 14] as u128) * 0x100 + data[off + 15] as u128;
    d0 * 0x1_00000000_00000000_00000000 + d1 * 0x10000_00000000_00000000 + d2 * 0x1_00000000_00000000
        + tail
}

/// One decoded device-path node: its type byte, sub-type byte, and the data
/// that follows the four-byte node header.
pub struct DpNode {
    pub node_type: u8,
    pub sub_type: u8,
    pub data: Vec<u8>,
}

/// Mathematical image of a [`DpNode`].
pub struct DpNodeView {
    pub node_type: u8,
    pub sub_type: u8,
    pub data: Seq<u8>,
}

impl View for DpNode {
    type V = DpNodeView;

    open spec fn view(&self) -> DpNodeView {
        DpNodeView { node_type: self.node_type, sub_type: self.sub_type, data: self.data@ }
    }
}

/// The views of a sequence of decoded nodes.
pub open spec fn node_views(ns: Seq<DpNode>) -> Seq<DpNodeView> {
    ns.map_values(|n: DpNode| n@)
}

/// The sequence of complete device-path nodes at the head of a byte run.
/// Each node carries a four-byte header (type, sub-type, 16-bit
/// little-endian total length); decoding stops at an end-of-path node
/// (type 0x7f), at a malformed length, or where the bytes run out.
pub open spec fn parse_nodes(b: Seq<u8>) -> Seq<DpNodeView>
    decreases b.len(),
{
    if b.len() < 4 {
        Seq::empty()
    } else {
        let l = le16(b[2], b[3]);
        if l < 4 || l > b.len() || b[0] == 0x7f {
            Seq::empty()
        } else {
            seq![DpNodeView { node_type: b[0], sub_type: b[1], data: b.subrange(4, l) }]
                + parse_nodes(b.skip(l))
        }
    }
}

/// No node's data outgrows the buffer it was decoded from.
pub proof fn lemma_parse_nodes_data_len(b: Seq<u8>)
    ensures
        forall|i: int|
            0 <= i < parse_nodes(b).len() ==> #[trigger] parse_nodes(b)[i].data.len() <= b.len(),
    decreases b.len(),
{
    if b.len() >= 4 {
        let l = le16(b[2], b[3]);
        if 4 <= l <= b.len() && b[0] != 0x7f {
            let rest = parse_nodes(b.skip(l));
            lemma_parse_nodes_data_len(b.skip(l));
            assert(forall|i: int|
                1 <= i < parse_nodes(b).len() ==> #[trigger] parse_nodes(b)[i] == rest[i - 1]);
        }
    }
}

/// Decodes the device-path node sequence at the head of `buf`.
pub fn parse_device_path(buf: &[u8]) -> (nodes: Vec<DpNode>)
    ensures
        node_views(nodes@) == parse_nodes(buf@),
{
    let n: usize = buf.len();
    let mut nodes: Vec<DpNode> = Vec::new();
    let mut off: usize = 0;
    proof {
        assert(buf@.skip(0) =~= buf@);
        assert(node_views(nodes@) + parse_nodes(buf@) =~= parse_nodes(buf@));
    }
    loop
        invariant
            off <= n,
            n == buf@.len(),
            parse_nodes(buf@) == node_views(nodes@) + parse_nodes(buf@.skip(off as int)),
        decreases n - off,
    {
        if n - off < 4 {
            proof {
                assert(parse_nodes(buf@.skip(off as int)) =~= Seq::empty());
                assert(node_views(nodes@) + Seq::<DpNodeView>::empty() =~= node_views(nodes@));
            }
            return nodes;
        }
        let node_type = buf[off];
        let sub_type = buf[off + 1];
        let l = read_le16(buf[off + 2], buf[off + 3]) as usize;
        proof {
            assert(buf@.skip(off as int)[0] == buf@[off as int]);
            assert(buf@.skip(off as int)[1] == buf@[off as int + 1]);
            assert(buf@.skip(off as int)[2] == buf@[off as int + 2]);
            assert(buf@.skip(off as int)[3] == buf@[off as int + 3]);
        }
        if l < 4 || l > n - off || node_type == 0x7f {
            proof {
                assert(parse_nodes(buf@.skip(off as int)) =~= Seq::empty());
                assert(node_views(nodes@) + Seq::<DpNodeView>::empty() =~= node_views(nodes@));
            }
            return nodes;
        }
        let data = slice_to_vec(slice_subrange(buf, off + 4, off + l));
        let node = DpNode { node_type, sub_type, data };
        proof {
            lemma_seq_skip_of_skip(buf@, off as int, l as int);
            assert(buf@.skip(off as int).subrange(4, l as int) =~= buf@.subrange(
                off + 4,
                off + l as int,
            ));
            assert(parse_nodes(buf@.skip(off as int)) =~= seq![node@] + parse_nodes(
                buf@.skip(off + l as int),
            ));
            assert(node_views(nodes@.push(node)) =~= node_views(nodes@) + seq![node@]);
            assert(node_views(nodes@) + (seq![node@] + parse_nodes(buf@.skip(off + l as int)))
                =~= node_views(nodes@.push(node)) + parse_nodes(buf@.skip(off + l as int)));
        }
        nodes.push(node);
        off = off + l;
    }
}

/// A hardware/media node carrying a GPT partition signature: the partition
/// format byte and the signature-type byte both hold the GPT marker, and
/// the node is long enough to hold the 16-byte signature.
pub open spec fn is_gpt_partition_node(n: DpNodeView) -> bool {
    n.node_type == 4 && n.sub_type == 1 && n.data.len() >= 38 && n.data[36] == 2 && n.data[37] == 2
}

/// The partition GUID carried by a GPT hardware node: sixteen bytes at
/// offset 20 of the node's data, in the mixed little-endian GUID layout.
pub open spec fn node_guid(n: DpNodeView) -> u128 {
    guid_u128(n.data.subrange(20, 36))
}

/// The partition GUID a node sequence identifies: that of the last
/// well-formed GPT hardware node, or nothing when there is none.
pub open spec fn scan_guid(ns: Seq<DpNodeView>) -> Option<u128>
    decreases ns.len(),
{
    if ns.len() == 0 {
        None
    } else if is_gpt_partition_node(ns.last()) {
        Some(node_guid(ns.last()))
    } else {
        scan_guid(ns.drop_last())
    }
}

/// A file-path media node.
pub open spec fn is_file_path_node(n: DpNodeView) -> bool {
    n.node_type == 4 && n.sub_type == 4
}

/// The default x64 firmware loader path, lower-cased ASCII.
pub open spec fn default_loader_x64() -> Seq<u8> {
    seq![92u8, 101, 102, 105, 92, 98, 111, 111, 116, 92, 98, 111, 111, 116, 120, 54, 52, 46, 101, 102, 105]
}

/// The default IA32 firmware loader path, lower-cased ASCII.
pub open spec fn default_loader_ia() -> Seq<u8> {
    seq![92u8, 101, 102, 105, 92, 98, 111, 111, 116, 92, 98, 111, 111, 116, 105, 97, 51, 50, 46, 101, 102, 105]
}

/// The default AArch64 firmware loader path, lower-cased ASCII.
pub open spec fn default_loader_aa64() -> Seq<u8> {
    seq![92u8, 101, 102, 105, 92, 98, 111, 111, 116, 92, 98, 111, 111, 116, 97, 97, 54, 52, 46, 101, 102, 105]
}

/// Whether a decoded path names one of the well-known default loaders,
/// case-insensitively.
pub open spec fn is_default_loader_path(p: Seq<u8>) -> bool {
    contains_seq(lower_seq(p), default_loader_x64()) || contains_seq(
        lower_seq(p),
        default_loader_ia(),
    ) || contains_seq(lower_seq(p), default_loader_aa64())
}

/// Whether some file-path node in the sequence names a default loader.
pub open spec fn has_default_loader(ns: Seq<DpNodeView>) -> bool {
    exists|i: int|
        0 <= i < ns.len() && is_file_path_node(#[trigger] ns[i]) && is_default_loader_path(
            decoded_ascii(ns[i].data),
        )
}

/// Scans decoded nodes for the partition GUID of the last well-formed GPT
/// hardware node.
pub fn scan_partition_guid(nodes: &Vec<DpNode>) -> (r: Option<u128>)
    ensures
        r == scan_guid(node_views(nodes@)),
{
    let ns = nodes.len();
    let mut r: Option<u128> = None;
    let mut i: usize = 0;
    proof {
        assert(node_views(nodes@).take(0) =~= Seq::empty());
    }
    while i < ns
        invariant
            i <= ns,
            ns == nodes@.len(),
            r == scan_guid(node_views(nodes@).take(i as int)),
        decreases ns - i,
    {
        let node = &nodes[i];
        proof {
            assert(node_views(nodes@).take(i + 1 as int).drop_last() =~= node_views(nodes@).take(
                i as int,
            ));
            assert(node_views(nodes@).take(i + 1 as int).last() == nodes@[i as int]@);
        }
        if node.node_type == 4 && node.sub_type == 1 && node.data.len() >= 38 && node.data[36] == 2
            && node.data[37] == 2 {
            let g = guid_at(&node.data, 20);
            r = Some(g);
        }
        i = i + 1;
    }
    proof {
        assert(node_views(nodes@).take(ns as int) =~= node_views(nodes@));
    }
    r
}

/// Whether any file-path node among the decoded nodes names one of the
/// well-known default firmware loaders.
pub fn scan_default_loader(nodes: &Vec<DpNode>) -> (r: bool)
    requires
        forall|i: int|
            0 <= i < nodes@.len() ==> #[trigger] nodes@[i]@.data.len() + 2 <= usize::MAX,
    ensures
        r == has_default_loader(node_views(nodes@)),
{
    let pat_x64: Vec<u8> = vec![92u8, 101, 102, 105, 92, 98, 111, 111, 116, 92, 98, 111, 111, 116, 120, 54, 52, 46, 101, 102, 105];
    let pat_ia: Vec<u8> = vec![92u8, 101, 102, 105, 92, 98, 111, 111, 116, 92, 98, 111, 111, 116, 105, 97, 51, 50, 46, 101, 102, 105];
    let pat_aa64: Vec<u8> = vec![92u8, 101, 102, 105, 92, 98, 111, 111, 116, 92, 98, 111, 111, 116, 97, 97, 54, 52, 46, 101, 102, 105];
    proof {
        assert(pat_x64@ =~= default_loader_x64());
        assert(pat_ia@ =~= default_loader_ia());
        assert(pat_aa64@ =~= default_loader_aa64());
    }
    let ns = nodes.len();
    let mut i: usize = 0;
    while i < ns
        invariant
            i <= ns,
            ns == nodes@.len(),
            pat_x64@ == default_loader_x64(),
            pat_ia@ == default_loader_ia(),
            pat_aa64@ == default_loader_aa64(),
            forall|j: int|
                0 <= j < nodes@.len() ==> #[trigger] nodes@[j]@.data.len() + 2 <= usize::MAX,
            forall|j: int|
                0 <= j < i ==> !(is_file_path_node(#[trigger] node_views(nodes@)[j])
                    && is_default_loader_path(decoded_ascii(node_views(nodes@)[j].data))),
        decreases ns - i,
    {
        let node = &nodes[i];
        if node.node_type == 4 && node.sub_type == 4 {
            proof {
                assert(nodes@[i as int]@.data.len() + 2 <= usize::MAX);
            }
            let (path, _consumed) = crate::codec::char16_to_ascii(node.data.as_slice());
            let lowered = crate::ascii::lower_bytes(&path);
            let hit = crate::ascii::bytes_contain(&lowered, &pat_x64) || crate::ascii::bytes_contain(
                &lowered,
                &pat_ia,
            ) || crate::ascii::bytes_contain(&lowered, &pat_aa64);
            if hit {
                proof {
                    assert(is_file_path_node(node_views(nodes@)[i as int]));
                    assert(is_default_loader_path(decoded_ascii(node_views(nodes@)[i as int].data)));
                }
                return true;
            }
        }
        i = i + 1;
    }
    false
}

/// When a node sequence holds a well-formed GPT hardware node — with no
/// later one after it — the extracted partition GUID is exactly the GUID
/// encoded at byte offset 20 of that node's data, read in the mixed
/// little-endian GUID order.
pub proof fn lemma_gpt_guid_extraction(ns: Seq<DpNodeView>, i: int)
    requires
        0 <= i < ns.len(),
        is_gpt_partition_node(ns[i]),
        forall|j: int| i < j < ns.len() ==> !is_gpt_partition_node(#[trigger] ns[j]),
    ensures
        scan_guid(ns) == Some(guid_u128(ns[i].data.subrange(20, 36))),
    decreases ns.len(),
{
    if i == ns.len() - 1 {
    } else {
        assert(ns.drop_last()[i] == ns[i]);
        lemma_gpt_guid_extraction(ns.drop_last(), i);
    }
}

/// A node sequence yields no partition GUID exactly when it holds no
/// well-formed GPT hardware node.
pub proof fn lemma_scan_guid_none(ns: Seq<DpNodeView>)
    ensures
        scan_guid(ns) is None <==> forall|i: int|
            0 <= i < ns.len() ==> !is_gpt_partition_node(#[trigger] ns[i]),
    decreases ns.len(),
{
    if ns.len() > 0 {
        lemma_scan_guid_none(ns.drop_last());
        assert(forall|i: int| 0 <= i < ns.len() - 1 ==> ns.drop_last()[i] == #[trigger] ns[i]);
    }
}

} // verus!
