//! Structural laws of the decoder, stated over the spec-level decode and
//! proved once for every input.

use vstd::prelude::*;

use crate::varint::{
    spec_varint_enc, lemma_varint_enc_len, lemma_varint_enc_decodes, MAX_VARINT_LEN,
};
use crate::wire::{spec_scan, spec_read_field, RawFieldS, RawValueS};
use crate::parse::{spec_decode, spec_walk, EntryS, EntryValueS, ParseConfig};

verus! {

/// `p` names a direct child of the context `cur`: one more component over
/// the same prefix.
pub open spec fn extends_by_one(p: Seq<u64>, cur: Seq<u64>) -> bool {
    p.len() == cur.len() + 1 && p.take(cur.len() as int) == cur
}

/// The innermost enclosing path: the top of the open-marker stack, or the
/// message base when nothing is open.
pub open spec fn stack_top(base: Seq<u64>, stack: Seq<Seq<u64>>) -> Seq<u64> {
    if stack.len() == 0 {
        base
    } else {
        stack.last()
    }
}

/// Runs the entry stream through a bracket checker and returns the stack
/// of open paths left at the end, or `None` at the first violation.  An
/// open marker must name a direct child of the innermost open path and
/// pushes it; a close marker must name exactly the innermost open path and
/// pops it; every other entry must name a direct child of the innermost
/// open path.
pub open spec fn run_stack(es: Seq<EntryS>, base: Seq<u64>, stack: Seq<Seq<u64>>) -> Option<
    Seq<Seq<u64>>,
>
    decreases es.len(),
{
    if es.len() == 0 {
        Some(stack)
    } else {
        let e = es[0];
        let cur = stack_top(base, stack);
        match e.value {
            EntryValueS::OpenNested => if extends_by_one(e.path, cur) {
                run_stack(es.drop_first(), base, stack.push(e.path))
            } else {
                None
            },
            EntryValueS::CloseNested => if stack.len() >= 1 && e.path == cur {
                run_stack(es.drop_first(), base, stack.drop_last())
            } else {
                None
            },
            _ => if extends_by_one(e.path, cur) {
                run_stack(es.drop_first(), base, stack)
            } else {
                None
            },
        }
    }
}

proof fn lemma_run_stack_concat(
    es1: Seq<EntryS>,
    es2: Seq<EntryS>,
    base: Seq<u64>,
    stack: Seq<Seq<u64>>,
)
    ensures
        run_stack(es1.add(es2), base, stack) == (match run_stack(es1, base, stack) {
            Some(st) => run_stack(es2, base, st),
            None => None::<Seq<Seq<u64>>>,
        }),
    decreases es1.len(),
{
    if es1.len() == 0 {
        assert(es1.add(es2) =~= es2);
    } else {
        assert(es1.add(es2).drop_first() =~= es1.drop_first().add(es2));
        assert(es1.add(es2)[0] == es1[0]);
        let e = es1[0];
        let cur = stack_top(base, stack);
        match e.value {
            EntryValueS::OpenNested => {
                if extends_by_one(e.path, cur) {
                    lemma_run_stack_concat(es1.drop_first(), es2, base, stack.push(e.path));
                }
            },
            EntryValueS::CloseNested => {
                if stack.len() >= 1 && e.path == cur {
                    lemma_run_stack_concat(es1.drop_first(), es2, base, stack.drop_last());
                }
            },
            _ => {
                if extends_by_one(e.path, cur) {
                    lemma_run_stack_concat(es1.drop_first(), es2, base, stack);
                }
            },
        }
    }
}

proof fn lemma_run_stack_leaf(e: EntryS, base: Seq<u64>, stack: Seq<Seq<u64>>)
    requires
        !(e.value is OpenNested),
        !(e.value is CloseNested),
        extends_by_one(e.path, stack_top(base, stack)),
    ensures
        run_stack(seq![e], base, stack) == Some(stack),
{
    assert(seq![e].drop_first() =~= Seq::<EntryS>::empty());
    assert(run_stack(Seq::<EntryS>::empty(), base, stack) == Some(stack));
}

proof fn lemma_run_stack_open(e: EntryS, base: Seq<u64>, stack: Seq<Seq<u64>>)
    requires
        e.value is OpenNested,
        extends_by_one(e.path, stack_top(base, stack)),
    ensures
        run_stack(seq![e], base, stack) == Some(stack.push(e.path)),
{
    assert(seq![e].drop_first() =~= Seq::<EntryS>::empty());
    assert(run_stack(Seq::<EntryS>::empty(), base, stack.push(e.path)) == Some(stack.push(e.path)));
}

proof fn lemma_run_stack_close(e: EntryS, base: Seq<u64>, stack: Seq<Seq<u64>>)
    requires
        e.value is CloseNested,
        stack.len() >= 1,
        e.path == stack.last(),
    ensures
        run_stack(seq![e], base, stack) == Some(stack.drop_last()),
{
    assert(seq![e].drop_first() =~= Seq::<EntryS>::empty());
    assert(run_stack(Seq::<EntryS>::empty(), base, stack.drop_last()) == Some(stack.drop_last()));
}

proof fn lemma_decode_run_stack(
    b: Seq<u8>,
    path: Seq<u64>,
    cfg: ParseConfig,
    depth: nat,
    base: Seq<u64>,
    stack: Seq<Seq<u64>>,
)
    requires
        spec_decode(b, path, cfg, depth) is Some,
        stack_top(base, stack) == path,
    ensures
        run_stack(spec_decode(b, path, cfg, depth)->Some_0, base, stack) == Some(stack),
    decreases depth, b.len(), 1int, 0int,
{
    let fields = spec_scan(b, 0)->Some_0;
    lemma_walk_run_stack(b, fields, 0, path, cfg, depth, base, stack);
}

proof fn lemma_walk_run_stack(
    b: Seq<u8>,
    fields: Seq<RawFieldS>,
    k: int,
    path: Seq<u64>,
    cfg: ParseConfig,
    depth: nat,
    base: Seq<u64>,
    stack: Seq<Seq<u64>>,
)
    requires
        spec_walk(b, fields, k, path, cfg, depth) is Some,
        stack_top(base, stack) == path,
    ensures
        run_stack(spec_walk(b, fields, k, path, cfg, depth)->Some_0, base, stack) == Some(stack),
    decreases depth, b.len(), 0int, fields.len() - k,
{
    let es = spec_walk(b, fields, k, path, cfg, depth)->Some_0;
    if k >= fields.len() {
        assert(es =~= Seq::<EntryS>::empty());
    } else {
        let nested_path = path.push(fields[k].num);
        assert(nested_path.take(path.len() as int) =~= path);
        let rest = spec_walk(b, fields, k + 1, path, cfg, depth)->Some_0;
        lemma_walk_run_stack(b, fields, k + 1, path, cfg, depth, base, stack);
        match fields[k].value {
            RawValueS::Varint(v) => {
                let block = seq![EntryS { path: nested_path, value: EntryValueS::Varint(v) }];
                lemma_run_stack_concat(block, rest, base, stack);
                lemma_run_stack_leaf(block[0], base, stack);
                assert(block =~= seq![block[0]]);
            },
            RawValueS::Fixed64(v) => {
                let block = seq![EntryS { path: nested_path, value: EntryValueS::Fixed64(v) }];
                lemma_run_stack_concat(block, rest, base, stack);
                lemma_run_stack_leaf(block[0], base, stack);
                assert(block =~= seq![block[0]]);
            },
            RawValueS::Fixed32(v) => {
                let block = seq![EntryS { path: nested_path, value: EntryValueS::Fixed32(v) }];
                lemma_run_stack_concat(block, rest, base, stack);
                lemma_run_stack_leaf(block[0], base, stack);
                assert(block =~= seq![block[0]]);
            },
            RawValueS::Delimited { start, end } => {
                let payload = b.subrange(start, end);
                match spec_decode(payload, nested_path, cfg, (depth - 1) as nat) {
                    Some(inner) => {
                        let open = EntryS { path: nested_path, value: EntryValueS::OpenNested };
                        let close = EntryS { path: nested_path, value: EntryValueS::CloseNested };
                        let block = seq![open].add(inner).push(close);
                        assert(block =~= seq![open].add(inner.push(close)));
                        lemma_run_stack_concat(block, rest, base, stack);
                        lemma_run_stack_concat(seq![open], inner.push(close), base, stack);
                        let stack1 = stack.push(nested_path);
                        lemma_run_stack_open(open, base, stack);
                        assert(inner.push(close) =~= inner.add(seq![close]));
                        lemma_run_stack_concat(inner, seq![close], base, stack1);
                        lemma_decode_run_stack(
                            payload,
                            nested_path,
                            cfg,
                            (depth - 1) as nat,
                            base,
                            stack1,
                        );
                        lemma_run_stack_close(close, base, stack1);
                        assert(stack1.drop_last() =~= stack);
                    },
                    None => {
                        let block = seq![
                            EntryS { path: nested_path, value: EntryValueS::Bytes(payload) },
                        ];
                        lemma_run_stack_concat(block, rest, base, stack);
                        lemma_run_stack_leaf(block[0], base, stack);
                        assert(block =~= seq![block[0]]);
                    },
                }
            },
        }
    }
}

/// Bracket balance: in every successful decode, the open and close markers
/// form a well-nested parenthesization.  Running the stream through the
/// bracket checker starting from an empty stack succeeds and ends with the
/// stack empty again: every open marker is followed later by the one close
/// marker that pops it, at the same path; closes come innermost-first; and
/// every entry between an open marker and its close names a strict
/// extension of the opened path, because each step checks its path against
/// the innermost open marker.
pub proof fn lemma_bracket_balance(b: Seq<u8>, path: Seq<u64>, cfg: ParseConfig, depth: nat)
    requires
        spec_decode(b, path, cfg, depth) is Some,
    ensures
        run_stack(spec_decode(b, path, cfg, depth)->Some_0, path, Seq::empty()) == Some(
            Seq::<Seq<u64>>::empty(),
        ),
{
    lemma_decode_run_stack(b, path, cfg, depth, path, Seq::empty());
}

/// Every entry of a decode strictly extends the path the decode was asked
/// to file its entries under.
pub open spec fn all_strictly_extend(es: Seq<EntryS>, path: Seq<u64>) -> bool {
    forall|i: int|
        0 <= i < es.len() ==> (#[trigger] es[i]).path.len() > path.len() && es[i].path.take(
            path.len() as int,
        ) == path
}

proof fn lemma_walk_extends(
    b: Seq<u8>,
    fields: Seq<RawFieldS>,
    k: int,
    path: Seq<u64>,
    cfg: ParseConfig,
    depth: nat,
)
    requires
        spec_walk(b, fields, k, path, cfg, depth) is Some,
    ensures
        all_strictly_extend(spec_walk(b, fields, k, path, cfg, depth)->Some_0, path),
    decreases depth, b.len(), 0int, fields.len() - k,
{
    let es = spec_walk(b, fields, k, path, cfg, depth)->Some_0;
    if k >= fields.len() {
    } else {
        let nested_path = path.push(fields[k].num);
        assert(nested_path.take(path.len() as int) =~= path);
        let rest = spec_walk(b, fields, k + 1, path, cfg, depth)->Some_0;
        lemma_walk_extends(b, fields, k + 1, path, cfg, depth);
        if fields[k].value is Delimited {
            let start = fields[k].value->start;
            let end = fields[k].value->end;
            let payload = b.subrange(start, end);
            match spec_decode(payload, nested_path, cfg, (depth - 1) as nat) {
                Some(inner) => {
                    lemma_decode_extends(payload, nested_path, cfg, (depth - 1) as nat);
                    assert forall|i: int| 0 <= i < inner.len() implies (#[trigger] inner[i]).path.len()
                        > path.len() && inner[i].path.take(path.len() as int) == path by {
                        assert(inner[i].path.take(nested_path.len() as int) == nested_path);
                        assert forall|m: int| 0 <= m < path.len() implies inner[i].path[m] == path[m] by {
                            assert(inner[i].path.take(nested_path.len() as int)[m] == inner[i].path[m]);
                            assert(nested_path[m] == path[m]);
                        }
                        assert(inner[i].path.take(path.len() as int) =~= path);
                    }
                },
                None => {},
            }
        }
    }
}

proof fn lemma_decode_extends(b: Seq<u8>, path: Seq<u64>, cfg: ParseConfig, depth: nat)
    requires
        spec_decode(b, path, cfg, depth) is Some,
    ensures
        all_strictly_extend(spec_decode(b, path, cfg, depth)->Some_0, path),
    decreases depth, b.len(), 1int, 0int,
{
    let fields = spec_scan(b, 0)->Some_0;
    lemma_walk_extends(b, fields, 0, path, cfg, depth);
}

/// Every entry of a successful decode files strictly below the requested
/// path prefix.
pub proof fn lemma_entries_extend_prefix(b: Seq<u8>, path: Seq<u64>, cfg: ParseConfig, depth: nat)
    requires
        spec_decode(b, path, cfg, depth) is Some,
    ensures
        all_strictly_extend(spec_decode(b, path, cfg, depth)->Some_0, path),
{
    lemma_decode_extends(b, path, cfg, depth);
}

/// `es[j]` is the close marker that matches the open marker `es[i]`: same
/// path, and everything strictly between the two names a strict extension
/// of that path.
pub open spec fn open_matched_at(es: Seq<EntryS>, i: int, j: int) -> bool {
    &&& i < j < es.len()
    &&& es[j].value is CloseNested
    &&& es[j].path == es[i].path
    &&& forall|m: int|
        i < m < j ==> (#[trigger] es[m]).path.len() > es[i].path.len() && es[m].path.take(
            es[i].path.len() as int,
        ) == es[i].path
}

/// Every open marker of the stream is followed by a matching close.
pub open spec fn all_opens_matched(es: Seq<EntryS>) -> bool {
    forall|i: int|
        0 <= i < es.len() && (#[trigger] es[i]).value is OpenNested ==> exists|j: int|
            open_matched_at(es, i, j)
}

proof fn lemma_opens_matched_concat(a: Seq<EntryS>, b: Seq<EntryS>)
    requires
        all_opens_matched(a),
        all_opens_matched(b),
    ensures
        all_opens_matched(a.add(b)),
{
    let es = a.add(b);
    assert forall|i: int| 0 <= i < es.len() && (#[trigger] es[i]).value is OpenNested implies exists|
        j: int,
    | open_matched_at(es, i, j) by {
        if i < a.len() {
            assert(es[i] == a[i]);
            let j = choose|j: int| open_matched_at(a, i, j);
            assert forall|m: int| i < m < j implies (#[trigger] es[m]).path.len()
                > es[i].path.len() && es[m].path.take(es[i].path.len() as int) == es[i].path by {
                assert(es[m] == a[m]);
            }
            assert(open_matched_at(es, i, j));
        } else {
            assert(es[i] == b[i - a.len()]);
            let i0 = i - a.len();
            let j0 = choose|j0: int| open_matched_at(b, i0, j0);
            let j = j0 + a.len();
            assert forall|m: int| i < m < j implies (#[trigger] es[m]).path.len()
                > es[i].path.len() && es[m].path.take(es[i].path.len() as int) == es[i].path by {
                assert(es[m] == b[m - a.len()]);
            }
            assert(es[j] == b[j0]);
            assert(open_matched_at(es, i, j));
        }
    }
}

proof fn lemma_block_opens_matched(inner: Seq<EntryS>, p: Seq<u64>)
    requires
        all_opens_matched(inner),
        all_strictly_extend(inner, p),
    ensures
        all_opens_matched(
            seq![EntryS { path: p, value: EntryValueS::OpenNested }].add(inner).push(
                EntryS { path: p, value: EntryValueS::CloseNested },
            ),
        ),
{
    let open = EntryS { path: p, value: EntryValueS::OpenNested };
    let close = EntryS { path: p, value: EntryValueS::CloseNested };
    let es = seq![open].add(inner).push(close);
    let len = inner.len() + 2;
    assert(es.len() == len);
    assert forall|i: int| 0 <= i < es.len() && (#[trigger] es[i]).value is OpenNested implies exists|
        j: int,
    | open_matched_at(es, i, j) by {
        if i == 0 {
            let j = len - 1;
            assert(es[j] == close);
            assert forall|m: int| i < m < j implies (#[trigger] es[m]).path.len()
                > es[i].path.len() && es[m].path.take(es[i].path.len() as int) == es[i].path by {
                assert(es[m] == inner[m - 1]);
            }
            assert(open_matched_at(es, i, j));
        } else {
            assert(i < len - 1);
            assert(es[i] == inner[i - 1]);
            let i0 = i - 1;
            let j0 = choose|j0: int| open_matched_at(inner, i0, j0);
            let j = j0 + 1;
            assert(es[j] == inner[j0]);
            assert forall|m: int| i < m < j implies (#[trigger] es[m]).path.len()
                > es[i].path.len() && es[m].path.take(es[i].path.len() as int) == es[i].path by {
                assert(es[m] == inner[m - 1]);
            }
            assert(open_matched_at(es, i, j));
        }
    }
}

proof fn lemma_decode_opens_matched(b: Seq<u8>, path: Seq<u64>, cfg: ParseConfig, depth: nat)
    requires
        spec_decode(b, path, cfg, depth) is Some,
    ensures
        all_opens_matched(spec_decode(b, path, cfg, depth)->Some_0),
    decreases depth, b.len(), 1int, 0int,
{
    let fields = spec_scan(b, 0)->Some_0;
    lemma_walk_opens_matched(b, fields, 0, path, cfg, depth);
}

proof fn lemma_walk_opens_matched(
    b: Seq<u8>,
    fields: Seq<RawFieldS>,
    k: int,
    path: Seq<u64>,
    cfg: ParseConfig,
    depth: nat,
)
    requires
        spec_walk(b, fields, k, path, cfg, depth) is Some,
    ensures
        all_opens_matched(spec_walk(b, fields, k, path, cfg, depth)->Some_0),
    decreases depth, b.len(), 0int, fields.len() - k,
{
    let es = spec_walk(b, fields, k, path, cfg, depth)->Some_0;
    if k >= fields.len() {
    } else {
        let nested_path = path.push(fields[k].num);
        let rest = spec_walk(b, fields, k + 1, path, cfg, depth)->Some_0;
        lemma_walk_opens_matched(b, fields, k + 1, path, cfg, depth);
        match fields[k].value {
            RawValueS::Varint(v) => {
                let block = seq![EntryS { path: nested_path, value: EntryValueS::Varint(v) }];
                lemma_opens_matched_concat(block, rest);
            },
            RawValueS::Fixed64(v) => {
                let block = seq![EntryS { path: nested_path, value: EntryValueS::Fixed64(v) }];
                lemma_opens_matched_concat(block, rest);
            },
            RawValueS::Fixed32(v) => {
                let block = seq![EntryS { path: nested_path, value: EntryValueS::Fixed32(v) }];
                lemma_opens_matched_concat(block, rest);
            },
            RawValueS::Delimited { start, end } => {
                let payload = b.subrange(start, end);
                match spec_decode(payload, nested_path, cfg, (depth - 1) as nat) {
                    Some(inner) => {
                        let open = EntryS { path: nested_path, value: EntryValueS::OpenNested };
                        let close = EntryS { path: nested_path, value: EntryValueS::CloseNested };
                        let block = seq![open].add(inner).push(close);
                        lemma_decode_opens_matched(payload, nested_path, cfg, (depth - 1) as nat);
                        lemma_decode_extends(payload, nested_path, cfg, (depth - 1) as nat);
                        lemma_block_opens_matched(inner, nested_path);
                        lemma_opens_matched_concat(block, rest);
                    },
                    None => {
                        let block = seq![
                            EntryS { path: nested_path, value: EntryValueS::Bytes(payload) },
                        ];
                        lemma_opens_matched_concat(block, rest);
                    },
                }
            },
        }
    }
}

/// Every open marker of a successful decode is followed by exactly one
/// matching close marker: one at the same path with every entry strictly
/// between the two naming a strict extension of that path.
pub proof fn lemma_every_open_is_closed_once(b: Seq<u8>, path: Seq<u64>, cfg: ParseConfig, depth: nat)
    requires
        spec_decode(b, path, cfg, depth) is Some,
    ensures
        all_opens_matched(spec_decode(b, path, cfg, depth)->Some_0),
        forall|i: int, j1: int, j2: int|
            open_matched_at(spec_decode(b, path, cfg, depth)->Some_0, i, j1) && open_matched_at(
                spec_decode(b, path, cfg, depth)->Some_0,
                i,
                j2,
            ) ==> j1 == j2,
{
    let es = spec_decode(b, path, cfg, depth)->Some_0;
    lemma_decode_opens_matched(b, path, cfg, depth);
    assert forall|i: int, j1: int, j2: int|
        open_matched_at(es, i, j1) && open_matched_at(es, i, j2) implies j1 == j2 by {
        if j1 < j2 {
            assert(es[j1].path.len() > es[i].path.len());
        } else if j2 < j1 {
            assert(es[j2].path.len() > es[i].path.len());
        }
    }
}

/// Empty input never decodes, at any recursion depth, under any
/// configuration and path prefix.
pub proof fn lemma_empty_input_fails(b: Seq<u8>, path: Seq<u64>, cfg: ParseConfig, depth: nat)
    requires
        b.len() == 0,
    ensures
        spec_decode(b, path, cfg, depth) is None,
{
}

proof fn lemma_walk_excluded_fixed64_fails(
    b: Seq<u8>,
    fields: Seq<RawFieldS>,
    j: int,
    path: Seq<u64>,
    cfg: ParseConfig,
    depth: nat,
)
    requires
        cfg.no_fixed64,
        exists|k: int| j <= k < fields.len() && (#[trigger] fields[k]).value is Fixed64,
    ensures
        spec_walk(b, fields, j, path, cfg, depth) is None,
    decreases fields.len() - j,
{
    let k = choose|k: int| j <= k < fields.len() && (#[trigger] fields[k]).value is Fixed64;
    if fields[j].value is Fixed64 {
    } else {
        assert(j < k);
        lemma_walk_excluded_fixed64_fails(b, fields, j + 1, path, cfg, depth);
    }
}

/// When `no_fixed64` is set and any field of the scanned message uses wire
/// type 1, the decode of that message fails outright.  By the decoder's
/// definition the enclosing length-delimited field, if any, then falls
/// back to a bytes entry.
pub proof fn lemma_excluded_fixed64_fails(b: Seq<u8>, path: Seq<u64>, cfg: ParseConfig, depth: nat)
    requires
        cfg.no_fixed64,
        spec_scan(b, 0) is Some,
        exists|k: int|
            0 <= k < spec_scan(b, 0)->Some_0.len() && (#[trigger] spec_scan(b, 0)->Some_0[k]).value
                is Fixed64,
    ensures
        spec_decode(b, path, cfg, depth) is None,
{
    if depth > 0 && b.len() > 0 {
        lemma_walk_excluded_fixed64_fails(b, spec_scan(b, 0)->Some_0, 0, path, cfg, depth);
    }
}

/// A length-delimited field whose payload does not decode as a message is
/// emitted as a single bytes entry carrying that payload.
pub proof fn lemma_undecodable_payload_falls_back(
    b: Seq<u8>,
    fields: Seq<RawFieldS>,
    k: int,
    path: Seq<u64>,
    cfg: ParseConfig,
    depth: nat,
)
    requires
        0 <= k < fields.len(),
        fields[k].value is Delimited,
        spec_walk(b, fields, k, path, cfg, depth) is Some,
        spec_decode(
            b.subrange(fields[k].value->start, fields[k].value->end),
            path.push(fields[k].num),
            cfg,
            (depth - 1) as nat,
        ) is None,
    ensures
        spec_walk(b, fields, k, path, cfg, depth)->Some_0[0] == (EntryS {
            path: path.push(fields[k].num),
            value: EntryValueS::Bytes(b.subrange(fields[k].value->start, fields[k].value->end)),
        }),
{
}

/// A single varint field `n -> v`, encoded as the tag varint `8 n` (wire
/// type 0 in the low three bits) followed by the varint of `v`, decodes to
/// exactly one varint entry at path `n` below the requested prefix.
pub proof fn lemma_single_varint_field(
    n: u64,
    v: u128,
    path: Seq<u64>,
    cfg: ParseConfig,
    depth: nat,
)
    requires
        n < 0x2000000000000000,
        depth >= 1,
    ensures
        ({
            let b = spec_varint_enc((n * 8) as u128).add(spec_varint_enc(v));
            spec_decode(b, path, cfg, depth) == Some(
                seq![EntryS { path: path.push(n), value: EntryValueS::Varint(v) }],
            )
        }),
{
    let tag = (n * 8) as u128;
    let enc_t = spec_varint_enc(tag);
    let enc_v = spec_varint_enc(v);
    let b = enc_t.add(enc_v);
    lemma_varint_enc_len(tag);
    lemma_varint_enc_len(v);
    assert(b.subrange(0, enc_t.len() as int) =~= enc_t);
    lemma_varint_enc_decodes(b, 0, tag, MAX_VARINT_LEN as nat);
    assert(b.subrange(enc_t.len() as int, enc_t.len() + enc_v.len() as int) =~= enc_v);
    lemma_varint_enc_decodes(b, enc_t.len() as int, v, MAX_VARINT_LEN as nat);
    assert(tag / 8 == n) by {
        assert(tag == n * 8);
    }
    assert(tag % 8 == 0) by {
        assert(tag == n * 8);
    }
    assert(spec_read_field(b, 0) == Some((n, RawValueS::Varint(v), b.len() as int)));
    let f = RawFieldS { num: n, value: RawValueS::Varint(v) };
    assert(spec_scan(b, b.len() as int) == Some(Seq::<RawFieldS>::empty()));
    assert(seq![f].add(Seq::empty()) =~= seq![f]);
    assert(spec_scan(b, 0) == Some(seq![f]));
    let fields = seq![f];
    let entry = EntryS { path: path.push(n), value: EntryValueS::Varint(v) };
    assert(spec_walk(b, fields, 1, path, cfg, depth) == Some(Seq::<EntryS>::empty()));
    assert(seq![entry].add(Seq::empty()) =~= seq![entry]);
    assert(spec_walk(b, fields, 0, path, cfg, depth) == Some(seq![entry]));
}

} // verus!
