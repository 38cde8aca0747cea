//! Decoding a prefix of the input: every decoder reads its input in order and reads no byte at
//! or past its end offset, so the outcome on an input cut short at `t` is the same success when
//! the structure ends by `t`, and a truncation otherwise.
use vstd::prelude::*;

use crate::classfile::{member_outcome, member_step, members_outcome};
use crate::constant_pool::{
    entry_outcome,
    pool_layout,
    pool_names,
    pool_outcome,
    pool_slots,
    pool_walk,
    slot_width,
};
use crate::attributes::{
    attributes_outcome, bootstrap_method_outcome, bootstrap_method_step, bootstrap_methods_outcome,
    code_attributes_pos, code_exceptions_pos, code_outcome, components_outcome, counted_outcome,
    entries_outcome, frame_outcome, frame_step, frame_type_of, payload_outcome, record_outcome,
    resolve_name, simple_outcome, stack_map_table_outcome, vti_outcome, vti_step, AttributeKind,
    StackMapFrameType,
};
use crate::utils::{be16, be32, walk, DecodeError};

verus! {

/// `s2` holds the same bytes as `s` below offset `t`.
pub open spec fn agree_below(s: Seq<u8>, s2: Seq<u8>, t: int) -> bool {
    &&& t <= s.len()
    &&& t <= s2.len()
    &&& forall|i: int| 0 <= i < t ==> #[trigger] s2[i] == s[i]
}

/// What an outcome becomes when the input ends at `t`: a success that needs bytes past `t`
/// turns into a truncation.
pub open spec fn cut(r: Result<int, DecodeError>, t: int) -> Result<int, DecodeError> {
    match r {
        Ok(q) => if q <= t {
            Ok(q)
        } else {
            Err(DecodeError::Truncation)
        },
        Err(err) => Err(err),
    }
}

/// Every item that `f` decodes from a non-negative offset ends at or after its start and at or
/// before `e`.
pub open spec fn steps_within(f: spec_fn(int) -> Result<int, DecodeError>, e: int) -> bool {
    forall|x: int| 0 <= x && #[trigger] f(x) is Ok ==> x <= f(x)->Ok_0 <= e
}

/// A walk over items that stay within `e` stays within `e`.
pub proof fn lemma_walk_within(f: spec_fn(int) -> Result<int, DecodeError>, p: int, n: nat, e: int)
    requires
        0 <= p <= e,
        steps_within(f, e),
        walk(f, p, n) is Ok,
    ensures
        p <= walk(f, p, n)->Ok_0 <= e,
    decreases n,
{
    if n > 0 {
        lemma_walk_within(f, f(p)->Ok_0, (n - 1) as nat, e);
    }
}

/// A walk whose items are each cut at `t` is the whole walk cut at `t`.
pub proof fn lemma_walk_cut(
    f: spec_fn(int) -> Result<int, DecodeError>,
    g: spec_fn(int) -> Result<int, DecodeError>,
    p: int,
    n: nat,
    e: int,
    t: int,
)
    requires
        0 <= p <= t <= e,
        steps_within(f, e),
        forall|x: int| 0 <= x <= t && #[trigger] f(x) is Ok ==> g(x) == cut(f(x), t),
        walk(f, p, n) is Ok,
    ensures
        p <= walk(f, p, n)->Ok_0 <= e,
        walk(g, p, n) == cut(walk(f, p, n), t),
    decreases n,
{
    lemma_walk_within(f, p, n, e);
    if n > 0 {
        let y = f(p)->Ok_0;
        if y <= t {
            lemma_walk_cut(f, g, y, (n - 1) as nat, e, t);
        } else {
            lemma_walk_within(f, y, (n - 1) as nat, e);
        }
    }
}

/// One constant-pool entry, cut at `t`.
pub proof fn lemma_entry_cut(s: Seq<u8>, s2: Seq<u8>, p: int, e: int, t: int)
    requires
        0 <= p <= t <= e,
        agree_below(s, s2, t),
        entry_outcome(s, p, e) is Ok,
    ensures
        p < entry_outcome(s, p, e)->Ok_0 <= e,
        entry_outcome(s2, p, t) == cut(entry_outcome(s, p, e), t),
        p < t ==> s2[p] == s[p],
{
}

/// The constant-pool entries from table index `i` on, cut at `t`; where they end by `t`, their
/// layout is unchanged.
pub proof fn lemma_pool_walk_cut(s: Seq<u8>, s2: Seq<u8>, p: int, e: int, t: int, i: int, n: int)
    requires
        0 <= p <= t <= e,
        agree_below(s, s2, t),
        pool_walk(s, p, e, i, n) is Ok,
    ensures
        p <= pool_walk(s, p, e, i, n)->Ok_0 <= e,
        pool_walk(s2, p, t, i, n) == cut(pool_walk(s, p, e, i, n), t),
        pool_walk(
            s,
            p,
            e,
            i,
            n)->Ok_0 <= t ==> pool_layout(s2, p, t, i, n) == pool_layout(s, p, e, i, n,
        ),
    decreases n + 1 - i,
{
    if i < n {
        lemma_entry_cut(s, s2, p, e, t);
        let q = entry_outcome(s, p, e)->Ok_0;
        let w = slot_width(s[p]);
        if q <= t {
            lemma_pool_walk_cut(s, s2, q, e, t, i + w, n);
        } else {
            lemma_pool_walk_within(s, q, e, i + w, n);
        }
    }
}

/// The constant-pool entries from table index `i` on stay within `e`.
proof fn lemma_pool_walk_within(s: Seq<u8>, p: int, e: int, i: int, n: int)
    requires
        0 <= p <= e,
        pool_walk(s, p, e, i, n) is Ok,
    ensures
        p <= pool_walk(s, p, e, i, n)->Ok_0 <= e,
    decreases n + 1 - i,
{
    if i < n {
        let q = entry_outcome(s, p, e)->Ok_0;
        lemma_pool_walk_within(s, q, e, i + slot_width(s[p]), n);
    }
}

/// A constant pool, cut at `t`.
pub proof fn lemma_pool_cut(s: Seq<u8>, s2: Seq<u8>, p: int, e: int, t: int)
    requires
        0 <= p <= t <= e,
        agree_below(s, s2, t),
        pool_outcome(s, p, e) is Ok,
    ensures
        p + 2 <= pool_outcome(s, p, e)->Ok_0 <= e,
        pool_outcome(s2, p, t) == cut(pool_outcome(s, p, e), t),
{
    if p + 2 <= t {
        lemma_pool_walk_cut(s, s2, p + 2, e, t, 1, be16(s, p) as int);
    } else {
        lemma_pool_walk_within(s, p + 2, e, 1, be16(s, p) as int);
    }
}

/// Each entry of the layout starts at or after `p` and ends by the end of the walk.
proof fn lemma_layout_within(s: Seq<u8>, p: int, e: int, i: int, n: int)
    requires
        0 <= p,
        pool_walk(s, p, e, i, n) is Ok,
    ensures
        forall|j: int|
            0 <= j < pool_layout(s, p, e, i, n).len() && #[trigger] pool_layout(s, p, e, i, n)[j]
                >= 0 ==> p <= pool_layout(s, p, e, i, n)[j] && entry_outcome(
                s,
                pool_layout(s, p, e, i, n)[j],
                e,
            ) is Ok && entry_outcome(
                s,
                pool_layout(s, p, e, i, n)[j],
                e,
            )->Ok_0 <= pool_walk(s, p, e, i, n)->Ok_0,
    decreases n + 1 - i,
{
    if i < n {
        let q = entry_outcome(s, p, e)->Ok_0;
        let w = slot_width(s[p]);
        lemma_layout_within(s, q, e, i + w, n);
        lemma_pool_walk_within(s, q, e, i + w, n);
        let rest = pool_layout(s, q, e, i + w, n);
        let head = if w == 2 {
            seq![p, -1]
        } else {
            seq![p]
        };
        let lay = pool_layout(s, p, e, i, n);
        assert(lay == head + rest);
        assert forall|j: int| 0 <= j < lay.len() && #[trigger] lay[j] >= 0 implies p <= lay[j]
            && entry_outcome(s, lay[j], e) is Ok
                && entry_outcome(s, lay[j], e)->Ok_0 <= pool_walk(s, p, e, i, n)->Ok_0 by {
            if j >= head.len() {
                assert(lay[j] == rest[j - head.len()]);
            } else {
                assert(lay[j] == p);
            }
        }
    }
}

/// Where the constant pool ends by `t`, the input cut at `t` holds the same `Utf8` texts.
pub proof fn lemma_pool_names_cut(s: Seq<u8>, s2: Seq<u8>, p: int, e: int, t: int)
    requires
        0 <= p <= t <= e,
        agree_below(s, s2, t),
        pool_outcome(s, p, e) is Ok,
        pool_outcome(s, p, e)->Ok_0 <= t,
    ensures
        pool_names(s2, p, t) == pool_names(s, p, e),
{
    lemma_pool_cut(s, s2, p, e, t);
    let n = be16(s, p) as int;
    assert(be16(s2, p) == be16(s, p));
    lemma_pool_walk_cut(s, s2, p + 2, e, t, 1, n);
    lemma_layout_within(s, p + 2, e, 1, n);
    let lay = pool_slots(s, p, e);
    assert(pool_slots(s2, p, t) == lay);
    assert forall|i: int| 0 <= i < lay.len() + 1 implies #[trigger] pool_names(s2, p, t)[i]
        == pool_names(s, p, e)[i] by {
        if i > 0 && lay[i - 1] >= 0 {
            let x = lay[i - 1];
            assert(s2[x] == s[x]);
            if s[x] == 1 {
                assert(be16(s2, x + 1) == be16(s, x + 1));
                assert(x + 3 + be16(s, x + 1) <= t);
                assert(s2.subrange(x + 3, x + 3 + be16(s, x + 1)) =~= s.subrange(
                    x + 3,
                    x + 3 + be16(s, x + 1),
                ));
            }
        }
    }
    assert(pool_names(s2, p, t) =~= pool_names(s, p, e));
}

/// Verification types, cut at `t`.
proof fn lemma_vti_steps(s: Seq<u8>, s2: Seq<u8>, e: int, t: int)
    requires
        e <= s.len(),
        0 <= t <= e,
        agree_below(s, s2, t),
    ensures
        steps_within(vti_step(s, e), e),
        forall|x: int|
            0 <= x <= t && #[trigger] vti_step(s, e)(x) is Ok ==> vti_step(s2, t)(x) == cut(
                vti_step(s, e)(x),
                t,
            ),
{
    assert forall|x: int| 0 <= x && #[trigger] vti_step(s, e)(x) is Ok implies x <= vti_step(s, e)(
        x,
    )->Ok_0 <= e by {}
    assert forall|x: int| 0 <= x <= t && #[trigger] vti_step(s, e)(x) is Ok implies vti_step(
        s2,
        t,
    )(x) == cut(vti_step(s, e)(x), t) by {
        if x < t {
            assert(s2[x] == s[x]);
        }
    }
}

/// One stack-map frame, cut at `t`.
proof fn lemma_frame_cut(s: Seq<u8>, s2: Seq<u8>, p: int, e: int, t: int)
    requires
        e <= s.len(),
        0 <= p <= t <= e,
        agree_below(s, s2, t),
        frame_outcome(s, p, e) is Ok,
    ensures
        p <= frame_outcome(s, p, e)->Ok_0 <= e,
        frame_outcome(s2, p, t) == cut(frame_outcome(s, p, e), t),
{
    lemma_vti_steps(s, s2, e, t);
    lemma_vti_steps(s, s, e, e);
    if p < t {
        assert(s2[p] == s[p]);
    }
    let k = frame_type_of(s[p]);
    if k == Some(StackMapFrameType::AppendFrame) {
        if p + 3 <= t {
            lemma_walk_cut(vti_step(s, e), vti_step(s2, t), p + 3, (s[p] - 251) as nat, e, t);
        } else {
            lemma_walk_within(vti_step(s, e), p + 3, (s[p] - 251) as nat, e);
        }
    } else if k == Some(StackMapFrameType::FullFrame) {
        let nl = be16(s, p + 3) as nat;
        lemma_walk_within(vti_step(s, e), p + 5, nl, e);
        let r = walk(vti_step(s, e), p + 5, nl)->Ok_0;
        let ns = be16(s, r) as nat;
        lemma_walk_within(vti_step(s, e), r + 2, ns, e);
        if p + 5 <= t {
            assert(be16(s2, p + 3) == be16(s, p + 3));
            lemma_walk_cut(vti_step(s, e), vti_step(s2, t), p + 5, nl, e, t);
            if r + 2 <= t {
                assert(be16(s2, r) == be16(s, r));
                lemma_walk_cut(vti_step(s, e), vti_step(s2, t), r + 2, ns, e, t);
            }
        }
    }
}

/// Stack-map frames, cut at `t`.
proof fn lemma_frame_steps(s: Seq<u8>, s2: Seq<u8>, e: int, t: int)
    requires
        e <= s.len(),
        0 <= t <= e,
        agree_below(s, s2, t),
    ensures
        steps_within(frame_step(s, e), e),
        forall|x: int|
            0 <= x <= t && #[trigger] frame_step(s, e)(x) is Ok ==> frame_step(s2, t)(x) == cut(
                frame_step(s, e)(x),
                t,
            ),
{
    assert forall|x: int| 0 <= x && #[trigger] frame_step(s, e)(x) is Ok implies x <= frame_step(
        s,
        e,
    )(x)->Ok_0 <= e by {
        if x <= e {
            lemma_frame_cut(s, s, x, e, e);
        }
    }
    assert forall|x: int| 0 <= x <= t && #[trigger] frame_step(s, e)(x) is Ok implies frame_step(
        s2,
        t,
    )(x) == cut(frame_step(s, e)(x), t) by {
        lemma_frame_cut(s, s2, x, e, t);
    }
}

/// Bootstrap methods, cut at `t`.
proof fn lemma_bootstrap_steps(s: Seq<u8>, s2: Seq<u8>, e: int, t: int)
    requires
        e <= s.len(),
        0 <= t <= e,
        agree_below(s, s2, t),
    ensures
        steps_within(bootstrap_method_step(s, e), e),
        forall|x: int|
            0 <= x <= t
                && #[trigger] bootstrap_method_step(s, e)(x) is Ok ==> bootstrap_method_step(
                s2,
                t,
            )(x) == cut(bootstrap_method_step(s, e)(x), t),
{
    assert forall|x: int| 0 <= x && #[trigger] bootstrap_method_step(s, e)(x) is Ok implies x
        <= bootstrap_method_step(s, e)(x)->Ok_0 <= e by {}
    assert forall|x: int| 0 <= x <= t
        && #[trigger] bootstrap_method_step(s, e)(x) is Ok implies bootstrap_method_step(
        s2,
        t,
    )(x) == cut(bootstrap_method_step(s, e)(x), t) by {
        if x + 4 <= t {
            assert(be16(s2, x + 2) == be16(s, x + 2));
        }
    }
}

/// The payload of an attribute without nested attributes, cut at `t`.
proof fn lemma_simple_cut(s: Seq<u8>, s2: Seq<u8>, a: int, b: int, t: int, k: AttributeKind)
    requires
        b <= s.len(),
        0 <= a <= t <= b,
        agree_below(s, s2, t),
        simple_outcome(s, a, b, k) is Ok,
        k != AttributeKind::Code && k != AttributeKind::Record,
    ensures
        a <= simple_outcome(s, a, b, k)->Ok_0 <= b,
        simple_outcome(s2, a, t, k) == cut(simple_outcome(s, a, b, k), t),
{
    if a + 2 <= t {
        assert(be16(s2, a) == be16(s, a));
    }
    match k {
        AttributeKind::StackMapTable => {
            lemma_frame_steps(s, s2, b, t);
            lemma_frame_steps(s, s, b, b);
            if a + 2 <= t {
                lemma_walk_cut(frame_step(s, b), frame_step(s2, t), a + 2, be16(s, a) as nat, b, t);
            } else {
                lemma_walk_within(frame_step(s, b), a + 2, be16(s, a) as nat, b);
            }
        },
        AttributeKind::BootstrapMethods => {
            lemma_bootstrap_steps(s, s2, b, t);
            lemma_bootstrap_steps(s, s, b, b);
            if a + 2 <= t {
                lemma_walk_cut(
                    bootstrap_method_step(s, b),
                    bootstrap_method_step(s2, t),
                    a + 2,
                    be16(s, a) as nat,
                    b,
                    t,
                );
            } else {
                lemma_walk_within(bootstrap_method_step(s, b), a + 2, be16(s, a) as nat, b);
            }
        },
        _ => {},
    }
}

/// An attribute table, cut at `t`.
pub proof fn lemma_attributes_cut(
    s: Seq<u8>,
    s2: Seq<u8>,
    p: int,
    e: int,
    t: int,
    names: Seq<Option<Seq<u8>>>,
)
    requires
        0 <= p <= t <= e <= s.len(),
        agree_below(s, s2, t),
        attributes_outcome(s, p, e, names) is Ok,
    ensures
        p + 2 <= attributes_outcome(s, p, e, names)->Ok_0 <= e,
        attributes_outcome(s2, p, t, names) == cut(attributes_outcome(s, p, e, names), t),
    decreases e - p, 0int,
{
    reveal(attributes_outcome);
    let n = be16(s, p) as nat;
    if p + 2 <= t {
        assert(be16(s2, p) == be16(s, p));
        lemma_entries_cut(s, s2, p + 2, e, t, names, n);
    } else {
        lemma_entries_cut(s, s, p + 2, e, e, names, n);
    }
}

/// `n` attribute entries, cut at `t`.
pub proof fn lemma_entries_cut(
    s: Seq<u8>,
    s2: Seq<u8>,
    p: int,
    e: int,
    t: int,
    names: Seq<Option<Seq<u8>>>,
    n: nat,
)
    requires
        0 <= p <= t <= e <= s.len(),
        agree_below(s, s2, t),
        entries_outcome(s, p, e, names, n) is Ok,
    ensures
        p <= entries_outcome(s, p, e, names, n)->Ok_0 <= e,
        entries_outcome(s2, p, t, names, n) == cut(entries_outcome(s, p, e, names, n), t),
    decreases e - p, 0int,
{
    reveal(attributes_outcome);
    if n > 0 {
        let kind = resolve_name(names, be16(s, p))->Ok_0;
        let b = p + 6 + be32(s, p + 2);
        if b <= t {
            assert(be16(s2, p) == be16(s, p));
            assert(be32(s2, p + 2) == be32(s, p + 2));
            lemma_payload_local(s, s2, p + 6, b, names, kind);
            lemma_entries_cut(s, s2, b, e, t, names, (n - 1) as nat);
        } else {
            lemma_entries_cut(s, s, b, e, e, names, (n - 1) as nat);
            if p + 6 <= t {
                assert(be16(s2, p) == be16(s, p));
                assert(be32(s2, p + 2) == be32(s, p + 2));
            } else if p + 2 <= t {
                assert(be16(s2, p) == be16(s, p));
            }
        }
    }
}

/// An attribute payload `[a, b)`, read from an input that agrees below `b`.
pub proof fn lemma_payload_local(
    s: Seq<u8>,
    s2: Seq<u8>,
    a: int,
    b: int,
    names: Seq<Option<Seq<u8>>>,
    kind: Option<AttributeKind>,
)
    requires
        0 <= a <= b <= s.len(),
        agree_below(s, s2, b),
        payload_outcome(s, a, b, names, kind) is Ok,
    ensures
        payload_outcome(s2, a, b, names, kind) == payload_outcome(s, a, b, names, kind),
    decreases b - a, 1int,
{
    reveal(attributes_outcome);
    match kind {
        None => {},
        Some(AttributeKind::Code) => lemma_code_local(s, s2, a, b, names),
        Some(AttributeKind::Record) => lemma_record_local(s, s2, a, b, names),
        Some(k) => lemma_simple_cut(s, s2, a, b, b, k),
    }
}

/// A `Code` payload `[a, b)`, read from an input that agrees below `b`.
pub proof fn lemma_code_local(s: Seq<u8>, s2: Seq<u8>, a: int, b: int, names: Seq<Option<Seq<u8>>>)
    requires
        0 <= a <= b <= s.len(),
        agree_below(s, s2, b),
        code_outcome(s, a, b, names) is Ok,
    ensures
        code_outcome(s2, a, b, names) == code_outcome(s, a, b, names),
    decreases b - a, 0int,
{
    reveal(attributes_outcome);
    assert(be32(s2, a + 4) == be32(s, a + 4));
    let x = code_exceptions_pos(s, a);
    lemma_code_unfold(s, a, b, names);
    assert(be16(s2, x) == be16(s, x));
    lemma_attributes_cut(s, s2, code_attributes_pos(s, a), b, b, names);
}

/// A `Record` payload `[a, b)`, read from an input that agrees below `b`.
pub proof fn lemma_record_local(
    s: Seq<u8>,
    s2: Seq<u8>,
    a: int,
    b: int,
    names: Seq<Option<Seq<u8>>>,
)
    requires
        0 <= a <= b <= s.len(),
        agree_below(s, s2, b),
        record_outcome(s, a, b, names) is Ok,
    ensures
        record_outcome(s2, a, b, names) == record_outcome(s, a, b, names),
    decreases b - a, 0int,
{
    reveal(attributes_outcome);
    assert(be16(s2, a) == be16(s, a));
    lemma_record_unfold(s, a, b, names);
    lemma_components_local(s, s2, a + 2, b, names, be16(s, a) as nat);
}

/// `n` record components from `p`, read from an input that agrees below `e`.
pub proof fn lemma_components_local(
    s: Seq<u8>,
    s2: Seq<u8>,
    p: int,
    e: int,
    names: Seq<Option<Seq<u8>>>,
    n: nat,
)
    requires
        0 <= p <= e <= s.len(),
        agree_below(s, s2, e),
        components_outcome(s, p, e, names, n) is Ok,
    ensures
        components_outcome(s2, p, e, names, n) == components_outcome(s, p, e, names, n),
    decreases e - p, 0int,
{
    reveal(attributes_outcome);
    if n > 0 {
        lemma_components_unfold(s, p, e, names, n);
        lemma_attributes_cut(s, s2, p + 4, e, e, names);
        let q = attributes_outcome(s, p + 4, e, names)->Ok_0;
        lemma_components_local(s, s2, q, e, names, (n - 1) as nat);
    }
}

/// One step of [`code_outcome`].
proof fn lemma_code_unfold(s: Seq<u8>, a: int, b: int, names: Seq<Option<Seq<u8>>>)
    requires
        code_outcome(s, a, b, names) is Ok,
    ensures
        a + 8 <= b,
        code_exceptions_pos(s, a) + 2 <= b,
        a < code_attributes_pos(s, a) <= b,
        code_outcome(s, a, b, names) == attributes_outcome(s, code_attributes_pos(s, a), b, names),
{
    reveal(attributes_outcome);
}

/// One step of [`record_outcome`].
proof fn lemma_record_unfold(s: Seq<u8>, a: int, b: int, names: Seq<Option<Seq<u8>>>)
    requires
        record_outcome(s, a, b, names) is Ok,
    ensures
        a + 2 <= b,
        record_outcome(s, a, b, names) == components_outcome(s, a + 2, b, names, be16(s, a) as nat),
{
    reveal(attributes_outcome);
}

/// One step of [`components_outcome`].
proof fn lemma_components_unfold(s: Seq<u8>, p: int, e: int, names: Seq<Option<Seq<u8>>>, n: nat)
    requires
        n > 0,
        components_outcome(s, p, e, names, n) is Ok,
    ensures
        p + 4 <= e,
        attributes_outcome(s, p + 4, e, names) is Ok,
        ({
            let q = attributes_outcome(s, p + 4, e, names)->Ok_0;
            p < q <= e ==> components_outcome(s, p, e, names, n) == components_outcome(
                s,
                q,
                e,
                names,
                (n - 1) as nat,
            )
        }),
{
    reveal(attributes_outcome);
}
/// Field or method records, cut at `t`.
proof fn lemma_member_steps(s: Seq<u8>, s2: Seq<u8>, e: int, t: int, names: Seq<Option<Seq<u8>>>)
    requires
        0 <= t <= e <= s.len(),
        agree_below(s, s2, t),
    ensures
        steps_within(member_step(s, e, names), e),
        forall|x: int|
            0 <= x <= t
                && #[trigger] member_step(s, e, names)(x) is Ok ==> member_step(s2, t, names)(
                x,
            ) == cut(member_step(s, e, names)(x), t),
{
    assert forall|x: int| 0 <= x && #[trigger] member_step(s, e, names)(x) is Ok implies x
        <= member_step(s, e, names)(x)->Ok_0 <= e by {
        lemma_attributes_cut(s, s, x + 6, e, e, names);
    }
    assert forall|x: int| 0 <= x <= t
        && #[trigger] member_step(s, e, names)(x) is Ok implies member_step(
        s2,
        t,
        names,
    )(x) == cut(member_step(s, e, names)(x), t) by {
        if x + 6 <= t {
            lemma_attributes_cut(s, s2, x + 6, e, t, names);
        } else {
            lemma_attributes_cut(s, s, x + 6, e, e, names);
        }
    }
}

/// A field or method table, cut at `t`.
pub proof fn lemma_members_cut(
    s: Seq<u8>,
    s2: Seq<u8>,
    p: int,
    e: int,
    t: int,
    names: Seq<Option<Seq<u8>>>,
)
    requires
        0 <= p <= t <= e <= s.len(),
        agree_below(s, s2, t),
        members_outcome(s, p, e, names) is Ok,
    ensures
        p + 2 <= members_outcome(s, p, e, names)->Ok_0 <= e,
        members_outcome(s2, p, t, names) == cut(members_outcome(s, p, e, names), t),
{
    lemma_member_steps(s, s2, e, t, names);
    lemma_member_steps(s, s, e, e, names);
    let n = be16(s, p) as nat;
    if p + 2 <= t {
        assert(be16(s2, p) == be16(s, p));
        lemma_walk_cut(member_step(s, e, names), member_step(s2, t, names), p + 2, n, e, t);
    } else {
        lemma_walk_within(member_step(s, e, names), p + 2, n, e);
    }
}
} // verus!
