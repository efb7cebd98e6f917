//! Firmware boot-variable entries: parsing variable names and payloads,
//! correlating entries with disk identity, the deduplication rule, and the
//! boot-next selector value.
use crate::ascii::starts_with;
use crate::ascii::str_starts_with;
use crate::codec::decoded_chars;
use crate::codec::has_default_loader;
use crate::codec::parse_nodes;
use crate::codec::scan_guid;
use crate::codec::utf16_consumed;
use crate::disks::DiskMap;
use vstd::prelude::*;
use vstd::string::*;

verus! {

/// One firmware boot variable, decoded: its numeric identifier (the four
/// hex digits of the variable name), the description text, the partition
/// GUID its device path points at (when one is present), and whether the
/// device path names a well-known default removable-media loader.
pub struct EfiEntry {
    pub id: u16,
    pub description: String,
    pub partuuid: Option<u128>,
    pub is_default: bool,
}

/// Mathematical image of an [`EfiEntry`].
pub struct EfiEntryView {
    pub id: u16,
    pub description: Seq<char>,
    pub partuuid: Option<u128>,
    pub is_default: bool,
}

impl View for EfiEntry {
    type V = EfiEntryView;

    open spec fn view(&self) -> EfiEntryView {
        EfiEntryView {
            id: self.id,
            description: self.description@,
            partuuid: self.partuuid,
            is_default: self.is_default,
        }
    }
}

/// The views of a sequence of entries.
pub open spec fn entry_views(es: Seq<EfiEntry>) -> Seq<EfiEntryView> {
    es.map_values(|e: EfiEntry| e@)
}

/// The value of one hexadecimal digit character, either case.
pub open spec fn hex_digit_val(c: char) -> Option<u8> {
    let u = c as u32;
    if 48 <= u <= 57 {
        Some((u - 48) as u8)
    } else if 97 <= u <= 102 {
        Some((u - 87) as u8)
    } else if 65 <= u <= 70 {
        Some((u - 55) as u8)
    } else {
        None
    }
}

/// A boot-variable name: `Boot` followed by exactly four hex digits.
pub open spec fn is_boot_var_name(s: Seq<char>) -> bool {
    &&& s.len() == 8
    &&& s[0] == 'B'
    &&& s[1] == 'o'
    &&& s[2] == 'o'
    &&& s[3] == 't'
    &&& hex_digit_val(s[4]) is Some
    &&& hex_digit_val(s[5]) is Some
    &&& hex_digit_val(s[6]) is Some
    &&& hex_digit_val(s[7]) is Some
}

/// The numeric identifier held in a boot-variable name's four hex digits.
pub open spec fn boot_var_id(s: Seq<char>) -> u16
    recommends
        is_boot_var_name(s),
{
    (hex_digit_val(s[4]).unwrap() * 4096 + hex_digit_val(s[5]).unwrap() * 256 + hex_digit_val(
        s[6],
    ).unwrap() * 16 + hex_digit_val(s[7]).unwrap()) as u16
}

/// What parsing a variable name yields: the identifier for well-formed
/// boot-variable names, nothing for every other name.
pub open spec fn spec_parse_boot_var_name(s: Seq<char>) -> Option<u16> {
    if is_boot_var_name(s) {
        Some(boot_var_id(s))
    } else {
        None
    }
}

/// Parses a hexadecimal digit character.
fn hex_digit(c: char) -> (r: Option<u8>)
    ensures
        r == hex_digit_val(c),
{
    let u = c as u32;
    if 48 <= u && u <= 57 {
        Some((u - 48) as u8)
    } else if 97 <= u && u <= 102 {
        Some((u - 87) as u8)
    } else if 65 <= u && u <= 70 {
        Some((u - 55) as u8)
    } else {
        None
    }
}

/// Parses a firmware variable name of the form `Boot` + four hex digits
/// into its numeric identifier; any other name — wrong prefix, wrong digit
/// count, non-hex digits — yields `None` and the variable is dropped.
pub fn parse_boot_var_name(name: &str) -> (r: Option<u16>)
    ensures
        r == spec_parse_boot_var_name(name@),
{
    if name.unicode_len() != 8 {
        return None;
    }
    if name.get_char(0) != 'B' || name.get_char(1) != 'o' || name.get_char(2) != 'o'
        || name.get_char(3) != 't' {
        return None;
    }
    let d0 = hex_digit(name.get_char(4));
    let d1 = hex_digit(name.get_char(5));
    let d2 = hex_digit(name.get_char(6));
    let d3 = hex_digit(name.get_char(7));
    match (d0, d1, d2, d3) {
        (Some(v0), Some(v1), Some(v2), Some(v3)) => Some(
            (v0 as u16) * 4096 + (v1 as u16) * 256 + (v2 as u16) * 16 + (v3 as u16),
        ),
        _ => None,
    }
}

/// The uppercase hexadecimal digit character for a value below sixteen.
pub open spec fn hex_char(v: u8) -> char
    recommends
        v < 16,
{
    if v < 10 {
        (((48 + v) as u8) as char)
    } else {
        (((55 + v) as u8) as char)
    }
}

/// The four uppercase hex digits of a 16-bit identifier.
pub open spec fn format_boot_id(id: u16) -> Seq<char> {
    seq![
        hex_char(((id >> 12) & 0xf) as u8),
        hex_char(((id >> 8) & 0xf) as u8),
        hex_char(((id >> 4) & 0xf) as u8),
        hex_char((id & 0xf) as u8),
    ]
}

/// Formats an identifier as its boot-variable name, `Boot` + four
/// uppercase hex digits.
pub fn format_boot_var_name(id: u16) -> (r: String)
    ensures
        r@ == seq!['B', 'o', 'o', 't'] + format_boot_id(id),
{
    let n0 = ((id >> 12) & 0xf) as u8;
    let n1 = ((id >> 8) & 0xf) as u8;
    let n2 = ((id >> 4) & 0xf) as u8;
    let n3 = (id & 0xf) as u8;
    proof {
        assert((id >> 12) & 0xf < 16 && (id >> 8) & 0xf < 16 && (id >> 4) & 0xf < 16 && id & 0xf
            < 16) by (bit_vector);
    }
    let bytes: Vec<u8> = vec![
        66u8,
        111,
        111,
        116,
        hex_byte(n0),
        hex_byte(n1),
        hex_byte(n2),
        hex_byte(n3),
    ];
    let s = crate::ascii::ascii_to_string(bytes);
    proof {
        assert(s@ =~= seq!['B', 'o', 'o', 't'] + format_boot_id(id));
    }
    s
}

/// The ASCII byte of an uppercase hex digit.
fn hex_byte(v: u8) -> (r: u8)
    requires
        v < 16,
    ensures
        r < 128,
        r as char == hex_char(v),
{
    if v < 10 {
        48 + v
    } else {
        55 + v
    }
}

/// Round trip, identifier first: formatting any identifier and parsing the
/// resulting name yields the identifier back.
pub proof fn lemma_boot_id_round_trip(id: u16)
    ensures
        spec_parse_boot_var_name(seq!['B', 'o', 'o', 't'] + format_boot_id(id)) == Some(id),
{
    let s = seq!['B', 'o', 'o', 't'] + format_boot_id(id);
    assert((id >> 12) & 0xf < 16 && (id >> 8) & 0xf < 16 && (id >> 4) & 0xf < 16 && id & 0xf < 16)
        by (bit_vector);
    let n0 = ((id >> 12) & 0xf) as u8;
    let n1 = ((id >> 8) & 0xf) as u8;
    let n2 = ((id >> 4) & 0xf) as u8;
    let n3 = (id & 0xf) as u8;
    lemma_hex_char_val(n0);
    lemma_hex_char_val(n1);
    lemma_hex_char_val(n2);
    lemma_hex_char_val(n3);
    assert(s[4] == hex_char(n0) && s[5] == hex_char(n1) && s[6] == hex_char(n2) && s[7] == hex_char(
        n3,
    ));
    assert(is_boot_var_name(s));
    assert(((id >> 12) & 0xf) * 4096 + ((id >> 8) & 0xf) * 256 + ((id >> 4) & 0xf) * 16 + (id
        & 0xf) == id) by (bit_vector);
    assert(boot_var_id(s) == id);
}

/// Parsing a hex digit back out of its formatted character.
proof fn lemma_hex_char_val(v: u8)
    requires
        v < 16,
    ensures
        hex_digit_val(hex_char(v)) == Some(v),
{
}

/// ASCII upper-casing of one character.
pub open spec fn upper_char(c: char) -> char {
    let u = c as u32;
    if 97 <= u <= 122 {
        (((u - 32) as u8) as char)
    } else {
        c
    }
}

/// A formatted hex digit is the uppercase image of any digit character that
/// parses to its value.
proof fn lemma_hex_digit_char(c: char)
    requires
        hex_digit_val(c) is Some,
    ensures
        hex_char(hex_digit_val(c).unwrap()) == upper_char(c),
{
}

/// Round trip, name first: any well-formed boot-variable name, reformatted
/// from its parsed identifier, gives the same four digits up to ASCII case.
pub proof fn lemma_boot_name_round_trip(s: Seq<char>, id: u16)
    requires
        spec_parse_boot_var_name(s) == Some(id),
    ensures
        forall|k: int| 0 <= k < 4 ==> format_boot_id(id)[k] == upper_char(s[4 + k]),
{
    let v0 = hex_digit_val(s[4]).unwrap();
    let v1 = hex_digit_val(s[5]).unwrap();
    let v2 = hex_digit_val(s[6]).unwrap();
    let v3 = hex_digit_val(s[7]).unwrap();
    assert(id == (v0 * 4096 + v1 * 256 + v2 * 16 + v3) as u16);
    let x0 = v0 as u16;
    let x1 = v1 as u16;
    let x2 = v2 as u16;
    let x3 = v3 as u16;
    assert((id >> 12) & 0xf == x0 && (id >> 8) & 0xf == x1 && (id >> 4) & 0xf == x2 && id & 0xf
        == x3) by (bit_vector)
        requires
            x0 < 16 && x1 < 16 && x2 < 16 && x3 < 16 && id == (x0 * 4096 + x1 * 256 + x2 * 16 + x3)
                as u16,
    ;
    lemma_hex_digit_char(s[4]);
    lemma_hex_digit_char(s[5]);
    lemma_hex_digit_char(s[6]);
    lemma_hex_digit_char(s[7]);
    assert(format_boot_id(id)[0] == upper_char(s[4]));
    assert(format_boot_id(id)[1] == upper_char(s[5]));
    assert(format_boot_id(id)[2] == upper_char(s[6]));
    assert(format_boot_id(id)[3] == upper_char(s[7]));
}

/// The well-known platform boot-manager description prefix: entries whose
/// description starts with it stay visible at the root menu.
pub open spec fn visible_description(desc: Seq<char>) -> bool {
    starts_with(desc, ("Windows Boot Manager")@)
}

impl EfiEntry {
    /// The entry's display name.
    pub fn user_readable_name(&self) -> (r: &str)
        ensures
            r@ == self@.description,
    {
        self.description.as_str()
    }

    /// Firmware entries hide by default; only those whose description
    /// begins with the well-known platform boot-manager prefix surface at
    /// the root menu.
    pub fn is_hidden(&self) -> (r: bool)
        ensures
            r == !visible_description(self@.description),
    {
        !str_starts_with(self.description.as_str(), "Windows Boot Manager")
    }

    /// The two-byte little-endian value to store in the firmware's
    /// boot-next selector to boot this entry next.
    pub fn boot_next_value(&self) -> (r: Vec<u8>)
        ensures
            r@ == seq![(self.id % 256) as u8, (self.id / 256) as u8],
    {
        let lo = (self.id % 256) as u8;
        let hi = (self.id / 256) as u8;
        let v = vec![lo, hi];
        proof {
            assert(v@ =~= seq![(self.id % 256) as u8, (self.id / 256) as u8]);
        }
        v
    }
}

/// The visibility attributes the boot-next selector is written with:
/// boot-service and runtime access, volatile (the non-volatile bit stays
/// clear — the selector holds for one boot only).
pub const BOOT_NEXT_ATTRIBUTES: u32 = 6;

/// The device-path nodes held in a boot-variable payload: they start right
/// after the six-byte header and the null-terminated description.
pub open spec fn device_path_nodes_of(b: Seq<u8>) -> Seq<crate::codec::DpNodeView> {
    let off = 6 + utf16_consumed(b.skip(6));
    if off <= b.len() {
        parse_nodes(b.skip(off))
    } else {
        Seq::empty()
    }
}

/// What decoding one boot-variable payload yields: the description starts
/// at byte offset six (after four attribute bytes and the two-byte
/// file-path-list length), and the device path follows its terminator.
/// Too-short payloads degrade to an empty description and no device path.
pub open spec fn spec_parse_boot_variable(id: u16, b: Seq<u8>) -> EfiEntryView {
    if b.len() < 6 {
        EfiEntryView { id, description: Seq::empty(), partuuid: None, is_default: false }
    } else {
        let nodes = device_path_nodes_of(b);
        EfiEntryView {
            id,
            description: decoded_chars(b.skip(6)),
            partuuid: scan_guid(nodes),
            is_default: has_default_loader(nodes),
        }
    }
}

/// Decodes one boot-variable payload into an entry: the description text,
/// the partition GUID of the last well-formed GPT hardware node of its
/// device path, and whether the path names a default removable-media
/// loader.
pub fn parse_boot_variable(id: u16, buf: &[u8]) -> (e: EfiEntry)
    requires
        buf@.len() + 8 <= usize::MAX,
    ensures
        e@ == spec_parse_boot_variable(id, buf@),
{
    let n: usize = buf.len();
    if n < 6 {
        return EfiEntry { id, description: String::new(), partuuid: None, is_default: false };
    }
    let tail = vstd::slice::slice_subrange(buf, 6, n);
    proof {
        assert(tail@ =~= buf@.skip(6));
    }
    let (description, consumed) = crate::codec::char16_to_string(tail);
    proof {
        crate::codec::lemma_utf16_consumed_bounds(buf@.skip(6));
    }
    let off = 6 + consumed;
    if off <= n {
        let dp = vstd::slice::slice_subrange(buf, off, n);
        proof {
            assert(dp@ =~= buf@.skip(off as int));
        }
        let nodes = crate::codec::parse_device_path(dp);
        let partuuid = crate::codec::scan_partition_guid(&nodes);
        proof {
            crate::codec::lemma_parse_nodes_data_len(dp@);
            assert(forall|i: int|
                0 <= i < nodes@.len() ==> #[trigger] nodes@[i]@.data.len() + 2 <= usize::MAX) by {
                assert(forall|i: int|
                    0 <= i < nodes@.len() ==> crate::codec::node_views(nodes@)[i]
                        == #[trigger] nodes@[i]@);
            }
        }
        let is_default = crate::codec::scan_default_loader(&nodes);
        EfiEntry { id, description, partuuid, is_default }
    } else {
        EfiEntry { id, description, partuuid: None, is_default: false }
    }
}

/// The views of the named variables: each name as characters beside its
/// raw payload bytes.
pub open spec fn var_views(vs: Seq<(String, Vec<u8>)>) -> Seq<(Seq<char>, Seq<u8>)> {
    vs.map_values(|p: (String, Vec<u8>)| (p.0@, p.1@))
}

/// The entries a list of named variables decodes to: variables whose name
/// is not `Boot` + four hex digits are dropped, every other one becomes
/// one entry.
pub open spec fn entries_from_vars_spec(vs: Seq<(Seq<char>, Seq<u8>)>) -> Seq<EfiEntryView>
    decreases vs.len(),
{
    if vs.len() == 0 {
        Seq::empty()
    } else {
        let head = match spec_parse_boot_var_name(vs[0].0) {
            Some(id) => seq![spec_parse_boot_variable(id, vs[0].1)],
            None => Seq::empty(),
        };
        head + entries_from_vars_spec(vs.drop_first())
    }
}

/// Decodes every readable firmware variable whose name is a well-formed
/// boot-variable name; all others are dropped, in order.
pub fn entries_from_variables(vars: &Vec<(String, Vec<u8>)>) -> (r: Vec<EfiEntry>)
    requires
        forall|i: int| 0 <= i < vars@.len() ==> (#[trigger] vars@[i].1)@.len() + 8 <= usize::MAX,
    ensures
        entry_views(r@) == entries_from_vars_spec(var_views(vars@)),
{
    let n = vars.len();
    let mut out: Vec<EfiEntry> = Vec::new();
    let mut i: usize = 0;
    proof {
        assert(var_views(vars@).skip(0) =~= var_views(vars@));
        assert(entry_views(out@) + entries_from_vars_spec(var_views(vars@)) =~= entries_from_vars_spec(
            var_views(vars@),
        ));
    }
    while i < n
        invariant
            i <= n,
            n == vars@.len(),
            forall|j: int| 0 <= j < vars@.len() ==> (#[trigger] vars@[j].1)@.len() + 8
                <= usize::MAX,
            entries_from_vars_spec(var_views(vars@)) == entry_views(out@) + entries_from_vars_spec(
                var_views(vars@).skip(i as int),
            ),
        decreases n - i,
    {
        let name = &vars[i].0;
        let data = &vars[i].1;
        proof {
            assert(var_views(vars@).skip(i as int)[0] == var_views(vars@)[i as int]);
            assert(var_views(vars@).skip(i as int).drop_first() =~= var_views(vars@).skip(
                i as int + 1,
            ));
        }
        match parse_boot_var_name(name.as_str()) {
            Some(id) => {
                let e = parse_boot_variable(id, data.as_slice());
                proof {
                    assert(entry_views(out@.push(e)) =~= entry_views(out@) + seq![e@]);
                    assert(entry_views(out@) + (seq![e@] + entries_from_vars_spec(
                        var_views(vars@).skip(i as int + 1),
                    )) =~= entry_views(out@.push(e)) + entries_from_vars_spec(
                        var_views(vars@).skip(i as int + 1),
                    ));
                }
                out.push(e);
            },
            None => {
                proof {
                    assert(Seq::<EfiEntryView>::empty() + entries_from_vars_spec(
                        var_views(vars@).skip(i as int + 1),
                    ) =~= entries_from_vars_spec(var_views(vars@).skip(i as int + 1)));
                }
            },
        }
        i = i + 1;
    }
    proof {
        assert(var_views(vars@).skip(n as int) =~= Seq::empty());
        assert(entry_views(out@) + Seq::<EfiEntryView>::empty() =~= entry_views(out@));
    }
    out
}

/// An entry annotated with disk identity: when its partition GUID names a
/// known disk, ` on ` and the disk's display name follow the description.
pub open spec fn annotated_entry(e: EfiEntryView, dm: DiskMap) -> EfiEntryView {
    match e.partuuid {
        Some(u) => if dm.contains_guid(u) {
            EfiEntryView {
                description: e.description + (" on ")@ + dm.name_of(u),
                ..e
            }
        } else {
            e
        },
        None => e,
    }
}

/// Annotates every entry whose partition GUID maps to a known disk with
/// that disk's display name.
pub fn annotate_entries(entries: Vec<EfiEntry>, dm: &DiskMap) -> (r: Vec<EfiEntry>)
    requires
        dm.wf(),
    ensures
        r@.len() == entries@.len(),
        forall|i: int|
            0 <= i < entries@.len() ==> entry_views(r@)[i] == annotated_entry(
                #[trigger] entry_views(entries@)[i],
                *dm,
            ),
{
    let n = entries.len();
    let mut out: Vec<EfiEntry> = Vec::new();
    let mut i: usize = 0;
    while i < n
        invariant
            i <= n,
            n == entries@.len(),
            out@.len() == i,
            dm.wf(),
            forall|j: int|
                0 <= j < i ==> entry_views(out@)[j] == annotated_entry(
                    #[trigger] entry_views(entries@)[j],
                    *dm,
                ),
        decreases n - i,
    {
        let e = &entries[i];
        let annotated: EfiEntry = match e.partuuid {
            Some(u) => {
                match dm.get(u) {
                    Some(name) => {
                        let desc = e.description.clone().concat(" on ").concat(name.as_str());
                        proof {
                            assert(desc@ =~= e.description@ + (" on ")@ + name@);
                        }
                        EfiEntry {
                            id: e.id,
                            description: desc,
                            partuuid: e.partuuid,
                            is_default: e.is_default,
                        }
                    },
                    None => EfiEntry {
                        id: e.id,
                        description: e.description.clone(),
                        partuuid: e.partuuid,
                        is_default: e.is_default,
                    },
                }
            },
            None => EfiEntry {
                id: e.id,
                description: e.description.clone(),
                partuuid: e.partuuid,
                is_default: e.is_default,
            },
        };
        proof {
            assert(annotated@ == annotated_entry(entry_views(entries@)[i as int], *dm));
        }
        out.push(annotated);
        i = i + 1;
    }
    out
}

/// Whether the post-processing keeps an entry, judged against the whole
/// enumeration: an entry flagged as a removable-media default whose
/// partition GUID some non-default entry also carries is discarded — the
/// firmware exposes both a fallback default-path entry and a specific
/// bootloader entry for the same install, and the specific one wins.
pub open spec fn keeps(e: EfiEntryView, all: Seq<EfiEntryView>) -> bool {
    match e.partuuid {
        None => true,
        Some(u) => !e.is_default || !(exists|j: int|
            0 <= j < all.len() && #[trigger] all[j].partuuid == Some(u) && !all[j].is_default),
    }
}

/// The subsequence of `s` kept when judging against `all`.
pub open spec fn dedup_rec(s: Seq<EfiEntryView>, all: Seq<EfiEntryView>) -> Seq<EfiEntryView>
    decreases s.len(),
{
    if s.len() == 0 {
        Seq::empty()
    } else {
        (if keeps(s[0], all) {
            seq![s[0]]
        } else {
            Seq::empty()
        }) + dedup_rec(s.drop_first(), all)
    }
}

/// The enumeration after deduplication.
pub open spec fn dedup_spec(all: Seq<EfiEntryView>) -> Seq<EfiEntryView> {
    dedup_rec(all, all)
}

/// Whether some entry carries this partition GUID without the default
/// flag.
fn has_non_default_for(entries: &Vec<EfiEntry>, u: u128) -> (r: bool)
    ensures
        r == exists|j: int|
            0 <= j < entry_views(entries@).len() && #[trigger] entry_views(entries@)[j].partuuid
                == Some(u) && !entry_views(entries@)[j].is_default,
{
    let n = entries.len();
    let mut i: usize = 0;
    while i < n
        invariant
            i <= n,
            n == entries@.len(),
            forall|j: int|
                0 <= j < i ==> !(#[trigger] entry_views(entries@)[j].partuuid == Some(u)
                    && !entry_views(entries@)[j].is_default),
        decreases n - i,
    {
        let e = &entries[i];
        let matches_u = match e.partuuid {
            Some(x) => x == u,
            None => false,
        };
        if matches_u && !e.is_default {
            proof {
                assert(entry_views(entries@)[i as int].partuuid == Some(u));
            }
            return true;
        }
        i = i + 1;
    }
    false
}

/// Applies the deduplication invariant: among entries sharing a partition
/// GUID, a default-flagged one is dropped when a non-default one exists.
pub fn dedup_entries(entries: Vec<EfiEntry>) -> (r: Vec<EfiEntry>)
    ensures
        entry_views(r@) == dedup_spec(entry_views(entries@)),
{
    let n = entries.len();
    let mut out: Vec<EfiEntry> = Vec::new();
    let mut i: usize = 0;
    proof {
        assert(entry_views(entries@).skip(0) =~= entry_views(entries@));
        assert(entry_views(out@) + dedup_rec(entry_views(entries@), entry_views(entries@))
            =~= dedup_rec(entry_views(entries@), entry_views(entries@)));
    }
    while i < n
        invariant
            i <= n,
            n == entries@.len(),
            dedup_spec(entry_views(entries@)) == entry_views(out@) + dedup_rec(
                entry_views(entries@).skip(i as int),
                entry_views(entries@),
            ),
        decreases n - i,
    {
        let e = &entries[i];
        let keep = match e.partuuid {
            None => true,
            Some(u) => {
                if e.is_default {
                    !has_non_default_for(&entries, u)
                } else {
                    true
                }
            },
        };
        proof {
            assert(entry_views(entries@).skip(i as int)[0] == entry_views(entries@)[i as int]);
            assert(entry_views(entries@).skip(i as int).drop_first() =~= entry_views(
                entries@,
            ).skip(i as int + 1));
            assert(keep == keeps(entry_views(entries@)[i as int], entry_views(entries@)));
        }
        if keep {
            let kept = EfiEntry {
                id: e.id,
                description: e.description.clone(),
                partuuid: e.partuuid,
                is_default: e.is_default,
            };
            proof {
                assert(kept@ == entry_views(entries@)[i as int]);
                assert(entry_views(out@.push(kept)) =~= entry_views(out@) + seq![kept@]);
                assert(entry_views(out@) + (seq![kept@] + dedup_rec(
                    entry_views(entries@).skip(i as int + 1),
                    entry_views(entries@),
                )) =~= entry_views(out@.push(kept)) + dedup_rec(
                    entry_views(entries@).skip(i as int + 1),
                    entry_views(entries@),
                ));
            }
            out.push(kept);
        } else {
            proof {
                assert(Seq::<EfiEntryView>::empty() + dedup_rec(
                    entry_views(entries@).skip(i as int + 1),
                    entry_views(entries@),
                ) =~= dedup_rec(entry_views(entries@).skip(i as int + 1), entry_views(entries@)));
            }
        }
        i = i + 1;
    }
    proof {
        assert(entry_views(entries@).skip(n as int) =~= Seq::empty());
        assert(entry_views(out@) + Seq::<EfiEntryView>::empty() =~= entry_views(out@));
    }
    out
}

/// How many entries of a sequence carry the given partition GUID.
pub open spec fn count_uuid(s: Seq<EfiEntryView>, u: u128) -> int
    decreases s.len(),
{
    if s.len() == 0 {
        0
    } else {
        (if s[0].partuuid == Some(u) {
            1int
        } else {
            0int
        }) + count_uuid(s.drop_first(), u)
    }
}

/// How many entries of `s` carry the GUID and survive the deduplication
/// judged against `all`.
pub open spec fn count_kept(s: Seq<EfiEntryView>, all: Seq<EfiEntryView>, u: u128) -> int
    decreases s.len(),
{
    if s.len() == 0 {
        0
    } else {
        (if s[0].partuuid == Some(u) && keeps(s[0], all) {
            1int
        } else {
            0int
        }) + count_kept(s.drop_first(), all, u)
    }
}

/// Deduplication keeps, GUID-wise, exactly the kept entries.
proof fn lemma_dedup_rec_count(s: Seq<EfiEntryView>, all: Seq<EfiEntryView>, u: u128)
    ensures
        count_uuid(dedup_rec(s, all), u) == count_kept(s, all, u),
    decreases s.len(),
{
    if s.len() > 0 {
        lemma_dedup_rec_count(s.drop_first(), all, u);
        if keeps(s[0], all) {
            assert(dedup_rec(s, all) =~= seq![s[0]] + dedup_rec(s.drop_first(), all));
            assert(dedup_rec(s, all).drop_first() =~= dedup_rec(s.drop_first(), all));
        } else {
            assert(dedup_rec(s, all) =~= dedup_rec(s.drop_first(), all));
        }
    }
}

/// The value `e` stands somewhere in `s` as an entry the deduplication
/// keeps.
pub open spec fn from_kept(s: Seq<EfiEntryView>, all: Seq<EfiEntryView>, e: EfiEntryView) -> bool {
    exists|p: int| 0 <= p < s.len() && s[p] == e && keeps(#[trigger] s[p], all)
}

/// Every entry of the deduplicated sequence is a kept entry of the input.
proof fn lemma_dedup_rec_elements(s: Seq<EfiEntryView>, all: Seq<EfiEntryView>)
    ensures
        forall|k: int|
            0 <= k < dedup_rec(s, all).len() ==> from_kept(s, all, #[trigger] dedup_rec(s, all)[k]),
    decreases s.len(),
{
    if s.len() > 0 {
        lemma_dedup_rec_elements(s.drop_first(), all);
        assert forall|k: int| 0 <= k < dedup_rec(s, all).len() implies from_kept(
            s,
            all,
            #[trigger] dedup_rec(s, all)[k],
        ) by {
            let e = dedup_rec(s, all)[k];
            if keeps(s[0], all) && k == 0 {
                assert(s[0] == dedup_rec(s, all)[0]);
                assert(keeps(s[0], all));
            } else {
                let k2: int = if keeps(s[0], all) {
                    k - 1
                } else {
                    k
                };
                assert(e == dedup_rec(s.drop_first(), all)[k2]);
                assert(from_kept(s.drop_first(), all, e));
                let p = choose|p: int|
                    0 <= p < s.drop_first().len() && s.drop_first()[p] == e && keeps(
                        #[trigger] s.drop_first()[p],
                        all,
                    );
                assert(s.drop_first()[p] == s[p + 1]);
                assert(s[p + 1] == e && keeps(s[p + 1], all));
            }
        }
    }
}

/// In the two-entries-one-GUID scenario, counting the kept entries of a
/// suffix: the non-default entry is the only one that counts.
proof fn lemma_count_kept_suffix(all: Seq<EfiEntryView>, u: u128, i: int, j: int, t: int)
    requires
        0 <= t <= all.len(),
        0 <= i < all.len(),
        0 <= j < all.len(),
        i != j,
        all[i].partuuid == Some(u),
        all[i].is_default,
        all[j].partuuid == Some(u),
        !all[j].is_default,
        forall|k: int| 0 <= k < all.len() && (#[trigger] all[k].partuuid) == Some(u) ==> k == i
            || k == j,
    ensures
        count_kept(all.skip(t), all, u) == if j >= t {
            1int
        } else {
            0int
        },
    decreases all.len() - t,
{
    if t == all.len() {
        assert(all.skip(t) =~= Seq::empty());
    } else {
        lemma_count_kept_suffix(all, u, i, j, t + 1);
        assert(all.skip(t)[0] == all[t]);
        assert(all.skip(t).drop_first() =~= all.skip(t + 1));
        if t == i {
            assert(!keeps(all[i], all)) by {
                assert(all[j].partuuid == Some(u) && !all[j].is_default);
            }
        } else if t == j {
            assert(keeps(all[j], all));
        } else {
            assert(all[t].partuuid != Some(u));
        }
    }
}

/// Deduplication resolves a default-flagged duplicate: when exactly two
/// entries carry one partition GUID, one flagged as removable-media default
/// and one not, the deduplicated enumeration holds exactly one entry with
/// that GUID — the non-default one.
pub proof fn lemma_dedup_resolves_default_duplicate(
    all: Seq<EfiEntryView>,
    u: u128,
    i: int,
    j: int,
)
    requires
        0 <= i < all.len(),
        0 <= j < all.len(),
        i != j,
        all[i].partuuid == Some(u),
        all[i].is_default,
        all[j].partuuid == Some(u),
        !all[j].is_default,
        forall|k: int| 0 <= k < all.len() && (#[trigger] all[k].partuuid) == Some(u) ==> k == i
            || k == j,
    ensures
        count_uuid(dedup_spec(all), u) == 1,
        forall|k: int|
            0 <= k < dedup_spec(all).len() && (#[trigger] dedup_spec(all)[k].partuuid) == Some(u)
                ==> dedup_spec(all)[k] == all[j],
{
    lemma_dedup_rec_count(all, all, u);
    lemma_count_kept_suffix(all, u, i, j, 0);
    assert(all.skip(0) =~= all);
    lemma_dedup_rec_elements(all, all);
    assert forall|k: int|
        0 <= k < dedup_spec(all).len() && (#[trigger] dedup_spec(all)[k].partuuid) == Some(u)
        implies dedup_spec(all)[k] == all[j] by {
        let e = dedup_spec(all)[k];
        assert(from_kept(all, all, e));
        let p = choose|p: int| 0 <= p < all.len() && all[p] == e && keeps(#[trigger] all[p], all);
        assert(all[p].partuuid == Some(u));
        if p == i {
            assert(!keeps(all[i], all)) by {
                assert(all[j].partuuid == Some(u) && !all[j].is_default);
            }
        }
    }
}

/// The whole firmware discovery pipeline after the variables are read:
/// decode each well-named variable, annotate with disk identity, then
/// deduplicate.
pub fn firmware_entries(vars: &Vec<(String, Vec<u8>)>, dm: &DiskMap) -> (r: Vec<EfiEntry>)
    requires
        dm.wf(),
        forall|i: int| 0 <= i < vars@.len() ==> (#[trigger] vars@[i].1)@.len() + 8 <= usize::MAX,
    ensures
        entry_views(r@) == dedup_spec(
            entries_from_vars_spec(var_views(vars@)).map_values(
                |e: EfiEntryView| annotated_entry(e, *dm),
            ),
        ),
{
    let decoded = entries_from_variables(vars);
    let annotated = annotate_entries(decoded, dm);
    proof {
        assert(entry_views(annotated@) =~= entries_from_vars_spec(var_views(vars@)).map_values(
            |e: EfiEntryView| annotated_entry(e, *dm),
        ));
    }
    dedup_entries(annotated)
}

} // verus!
