//! The heuristic message decoder.  It scans one message level, resolves the
//! "bytes or embedded message" ambiguity of every length-delimited field by
//! attempting a nested decode, and emits a flat, depth-first entry stream
//! with explicit open/close markers around each nested message.

use vstd::prelude::*;

use crate::wire::{
    scan_fields, spec_scan, lemma_scan_delimited_bounds, RawField, RawFieldS, RawValue, RawValueS,
};

verus! {

/// Upper bound on message nesting.  A length-delimited payload buried
/// deeper than this is not tried as a message and falls back to opaque
/// bytes, which keeps the recursion bounded on adversarial input.
pub const MAX_NESTING_DEPTH: usize = 100;

/// One line of decoder output: the path of field numbers from the document
/// root, and the decoded value.  Paths are not unique; repeated fields
/// recur with the same path.
#[derive(Debug, PartialEq)]
pub struct Entry {
    pub path: Vec<u64>,
    pub value: EntryValue,
}

#[derive(Debug, PartialEq)]
pub enum EntryValue {
    /// Wire type 1 (64-bit value) used for fixed64, sfixed64, double.
    Fixed64(u64),
    /// Wire type 5 (32-bit value) used for fixed32, sfixed32, float.
    Fixed32(u32),
    /// Wire type 0 (varint) used for int32, int64, uint32, uint64, sint32,
    /// sint64, bool, enum.
    Varint(u128),
    /// Wire type 2 (length-delimited) payload that did not decode as a
    /// nested message.
    Bytes(Vec<u8>),
    OpenNested,
    CloseNested,
}

/// Spec-level counterpart of `Entry`.
pub ghost struct EntryS {
    pub path: Seq<u64>,
    pub value: EntryValueS,
}

pub ghost enum EntryValueS {
    Fixed64(u64),
    Fixed32(u32),
    Varint(u128),
    Bytes(Seq<u8>),
    OpenNested,
    CloseNested,
}

impl View for EntryValue {
    type V = EntryValueS;

    open spec fn view(&self) -> EntryValueS {
        match self {
            EntryValue::Fixed64(v) => EntryValueS::Fixed64(*v),
            EntryValue::Fixed32(v) => EntryValueS::Fixed32(*v),
            EntryValue::Varint(v) => EntryValueS::Varint(*v),
            EntryValue::Bytes(v) => EntryValueS::Bytes(v@),
            EntryValue::OpenNested => EntryValueS::OpenNested,
            EntryValue::CloseNested => EntryValueS::CloseNested,
        }
    }
}

impl View for Entry {
    type V = EntryS;

    open spec fn view(&self) -> EntryS {
        EntryS { path: self.path@, value: self.value@ }
    }
}

pub open spec fn entries_view(s: Seq<Entry>) -> Seq<EntryS> {
    s.map_values(|e: Entry| e@)
}

/// Per-decode configuration: each flag declares one fixed-width wire type
/// unused, which makes any field of that type fail its whole (sub)message
/// and so forces the enclosing payload to be read as bytes instead.
#[derive(Clone, Copy)]
pub struct ParseConfig {
    pub no_fixed64: bool,
    pub no_fixed32: bool,
}

impl Default for ParseConfig {
    fn default() -> (r: Self)
        ensures
            !r.no_fixed64,
            !r.no_fixed32,
    {
        Self { no_fixed64: false, no_fixed32: false }
    }
}

/// The entry stream of the message held by `b`, every entry's path
/// starting with `path`, or `None` when `b` does not decode as a message
/// with the nesting budget `depth`.
///
/// The rules, in order: an empty buffer never decodes (an empty nested
/// message is indistinguishable from an empty string); a scan failure
/// fails the whole call; a fixed-width field fails the whole call when its
/// configuration flag excludes it; a length-delimited payload becomes an
/// open marker, the nested entries and a close marker when it decodes with
/// budget `depth - 1`, and a single bytes entry when it does not.
pub open spec fn spec_decode(b: Seq<u8>, path: Seq<u64>, cfg: ParseConfig, depth: nat) -> Option<
    Seq<EntryS>,
>
    decreases depth, b.len(), 1int, 0int,
{
    if depth == 0 || b.len() == 0 {
        None
    } else {
        match spec_scan(b, 0) {
            None => None,
            Some(fields) => spec_walk(b, fields, 0, path, cfg, depth),
        }
    }
}

/// The entries contributed by `fields[k..]`, where `fields` is the scan of
/// `b`; `None` propagates any failure among them.
pub open spec fn spec_walk(
    b: Seq<u8>,
    fields: Seq<RawFieldS>,
    k: int,
    path: Seq<u64>,
    cfg: ParseConfig,
    depth: nat,
) -> Option<Seq<EntryS>>
    decreases depth, b.len(), 0int, fields.len() - k,
{
    if k >= fields.len() {
        Some(Seq::empty())
    } else {
        let nested_path = path.push(fields[k].num);
        let block: Option<Seq<EntryS>> = match fields[k].value {
            RawValueS::Varint(v) => Some(
                seq![EntryS { path: nested_path, value: EntryValueS::Varint(v) }],
            ),
            RawValueS::Fixed64(v) => if cfg.no_fixed64 {
                None
            } else {
                Some(seq![EntryS { path: nested_path, value: EntryValueS::Fixed64(v) }])
            },
            RawValueS::Fixed32(v) => if cfg.no_fixed32 {
                None
            } else {
                Some(seq![EntryS { path: nested_path, value: EntryValueS::Fixed32(v) }])
            },
            RawValueS::Delimited { start, end } => if depth >= 1 && 0 <= start && start <= end
                && end <= b.len() && end - start + 2 <= b.len() {
                let payload = b.subrange(start, end);
                match spec_decode(payload, nested_path, cfg, (depth - 1) as nat) {
                    Some(inner) => Some(
                        seq![EntryS { path: nested_path, value: EntryValueS::OpenNested }].add(
                            inner,
                        ).push(EntryS { path: nested_path, value: EntryValueS::CloseNested }),
                    ),
                    None => Some(
                        seq![EntryS { path: nested_path, value: EntryValueS::Bytes(payload) }],
                    ),
                }
            } else {
                // a scanned field never reaches this arm: its payload
                // always lies within the buffer
                None
            },
        };
        match block {
            None => None,
            Some(entries) => match spec_walk(b, fields, k + 1, path, cfg, depth) {
                None => None,
                Some(rest) => Some(entries.add(rest)),
            },
        }
    }
}

fn clone_path(p: &Vec<u64>) -> (r: Vec<u64>)
    ensures
        r@ == p@,
{
    let r = vstd::slice::slice_to_vec(p.as_slice());
    proof {
        assert(r@ =~= p@);
    }
    r
}

/// Decodes `bytes` with the given nesting budget; entries carry `path` as
/// their common path prefix.
fn decode_rec(bytes: &[u8], config: ParseConfig, path: &[u64], depth: usize) -> (r: Option<
    Vec<Entry>,
>)
    ensures
        match r {
            Some(v) => spec_decode(bytes@, path@, config, depth as nat) == Some(entries_view(v@)),
            None => spec_decode(bytes@, path@, config, depth as nat) is None,
        },
    decreases depth,
{
    if depth == 0 || bytes.len() == 0 {
        return None;
    }
    let fields = match scan_fields(bytes) {
        None => {
            return None;
        },
        Some(f) => f,
    };
    let ghost fieldss = spec_scan(bytes@, 0)->Some_0;
    proof {
        assert(fieldss =~= fields@.map_values(|rf: RawField| rf@));
    }
    let mut out: Vec<Entry> = Vec::new();
    let mut k: usize = 0;
    loop
        invariant
            k <= fields.len(),
            depth >= 1,
            bytes@.len() >= 1,
            spec_scan(bytes@, 0) == Some(fieldss),
            fields@.len() == fieldss.len(),
            forall|i: int| 0 <= i < fieldss.len() ==> fields@[i]@ == fieldss[i],
            spec_decode(bytes@, path@, config, depth as nat) == spec_walk(
                bytes@,
                fieldss,
                0,
                path@,
                config,
                depth as nat,
            ),
            spec_walk(bytes@, fieldss, 0, path@, config, depth as nat) == match spec_walk(
                bytes@,
                fieldss,
                k as int,
                path@,
                config,
                depth as nat,
            ) {
                Some(rest) => Some(entries_view(out@).add(rest)),
                None => None::<Seq<EntryS>>,
            },
        decreases fields.len() - k,
    {
        if k == fields.len() {
            proof {
                assert(entries_view(out@).add(Seq::empty()) =~= entries_view(out@));
            }
            return Some(out);
        }
        let num = fields[k].num;
        let mut nested_path = vstd::slice::slice_to_vec(path);
        nested_path.push(num);
        proof {
            assert(nested_path@ =~= path@.push(num));
        }
        let ghost out_before = out@;
        match &fields[k].value {
            RawValue::Varint(v) => {
                out.push(Entry { path: nested_path, value: EntryValue::Varint(*v) });
            },
            RawValue::Fixed64(v) => {
                if config.no_fixed64 {
                    return None;
                }
                out.push(Entry { path: nested_path, value: EntryValue::Fixed64(*v) });
            },
            RawValue::Fixed32(v) => {
                if config.no_fixed32 {
                    return None;
                }
                out.push(Entry { path: nested_path, value: EntryValue::Fixed32(*v) });
            },
            RawValue::Delimited { start, end } => {
                proof {
                    lemma_scan_delimited_bounds(bytes@, 0, k as int);
                }
                let payload = vstd::slice::slice_subrange(bytes, *start, *end);
                match decode_rec(payload, config, nested_path.as_slice(), depth - 1) {
                    Some(mut inner) => {
                        out.push(
                            Entry { path: clone_path(&nested_path), value: EntryValue::OpenNested },
                        );
                        out.append(&mut inner);
                        out.push(Entry { path: nested_path, value: EntryValue::CloseNested });
                    },
                    None => {
                        out.push(
                            Entry {
                                path: nested_path,
                                value: EntryValue::Bytes(vstd::slice::slice_to_vec(payload)),
                            },
                        );
                    },
                }
            },
        }
        proof {
            let walk_k = spec_walk(bytes@, fieldss, k as int, path@, config, depth as nat);
            let walk_k1 = spec_walk(bytes@, fieldss, k + 1, path@, config, depth as nat);
            if walk_k1 is Some {
                assert(entries_view(out_before).add(walk_k->Some_0) =~= entries_view(out@).add(
                    walk_k1->Some_0,
                ));
            }
        }
        k = k + 1;
    }
}

/// Tries to parse `bytes` as a protobuf message; entry paths start with
/// `path`, the position of these bytes in the enclosing structure.
pub fn try_parse_entries_inner(bytes: &[u8], config: ParseConfig, path: &[u64]) -> (r: Option<
    Vec<Entry>,
>)
    ensures
        match r {
            Some(v) => spec_decode(bytes@, path@, config, MAX_NESTING_DEPTH as nat) == Some(
                entries_view(v@),
            ),
            None => spec_decode(bytes@, path@, config, MAX_NESTING_DEPTH as nat) is None,
        },
{
    decode_rec(bytes, config, path, MAX_NESTING_DEPTH)
}

/// Tries to parse `bytes` as a protobuf message and returns the entry
/// stream, one entry per output line.
pub fn try_parse_entries(bytes: &[u8], config: ParseConfig) -> (r: Option<Vec<Entry>>)
    ensures
        match r {
            Some(v) => spec_decode(bytes@, Seq::empty(), config, MAX_NESTING_DEPTH as nat) == Some(
                entries_view(v@),
            ),
            None => spec_decode(bytes@, Seq::empty(), config, MAX_NESTING_DEPTH as nat) is None,
        },
{
    let root: Vec<u64> = Vec::new();
    try_parse_entries_inner(bytes, config, root.as_slice())
}

} // verus!
