//! The checks of exporting a layout-aware node tree: before any Arrow array
//! is built, every list and map node's offsets are validated and narrowed to
//! `i32`, every child's row count is held against its parent's layout, map
//! keys are checked to be scalar and free of nulls, and every nested node's
//! null bitmap is turned into one validity flag per row. The result is a plan
//! with one step per node, in pre-order: a node's step comes first, then the
//! steps of its children in order.
use vstd::prelude::*;

use crate::arrow_export::{arrow_i32_offsets, ArrowExportNode};
use crate::encoding::nested::valid_list_offsets;
use crate::error::{fails_with, CoveError, ErrorCode};
use crate::util::text;
use crate::validity::{bitmap_bytes, count_set_bits, spec_valid_flags, ValidityBitmap};

verus! {

/// The checked shape of one node of an export tree.
#[derive(Debug, Clone, PartialEq, Eq)]
pub enum ExportStep {
    /// A scalar array of `rows` rows, exported by its own policy.
    Scalar { rows: u64 },
    /// A list array: its `i32` offsets and, for a nullable list, one
    /// validity flag per row.
    List { offsets: Vec<i32>, validity: Option<Vec<bool>> },
    /// A struct array of `rows` rows, whose fields follow in order.
    Struct { rows: u64, validity: Option<Vec<bool>> },
    /// A map array: its `i32` offsets, its validity flags and whether its
    /// keys are sorted; its keys, then its values, follow.
    MapEntries { offsets: Vec<i32>, validity: Option<Vec<bool>>, ordered: bool },
}

/// The mathematical form of an [`ExportStep`].
pub enum ExportStepView {
    Scalar { rows: u64 },
    List { offsets: Seq<i32>, validity: Option<Seq<bool>> },
    Struct { rows: u64, validity: Option<Seq<bool>> },
    MapEntries { offsets: Seq<i32>, validity: Option<Seq<bool>>, ordered: bool },
}

/// The view of optional validity flags.
pub open spec fn flags_view(v: Option<Vec<bool>>) -> Option<Seq<bool>> {
    match v {
        Some(f) => Some(f@),
        None => None,
    }
}

impl View for ExportStep {
    type V = ExportStepView;

    open spec fn view(&self) -> ExportStepView {
        match self {
            ExportStep::Scalar { rows } => ExportStepView::Scalar { rows: *rows },
            ExportStep::List { offsets, validity } => ExportStepView::List {
                offsets: offsets@,
                validity: flags_view(*validity),
            },
            ExportStep::Struct { rows, validity } => ExportStepView::Struct {
                rows: *rows,
                validity: flags_view(*validity),
            },
            ExportStep::MapEntries { offsets, validity, ordered } => ExportStepView::MapEntries {
                offsets: offsets@,
                validity: flags_view(*validity),
                ordered: *ordered,
            },
        }
    }
}

/// The checked plan of an export tree: one step per node, in pre-order.
#[derive(Debug, Clone, PartialEq, Eq)]
pub struct ExportPlan {
    pub steps: Vec<ExportStep>,
}

impl View for ExportPlan {
    type V = Seq<ExportStepView>;

    open spec fn view(&self) -> Seq<ExportStepView> {
        self.steps@.map_values(|s: ExportStep| s@)
    }
}

/// The number of rows of the array that a step describes.
pub open spec fn step_rows(s: ExportStepView) -> int {
    match s {
        ExportStepView::Scalar { rows } => rows as int,
        ExportStepView::List { offsets, .. } => offsets.len() - 1,
        ExportStepView::Struct { rows, .. } => rows as int,
        ExportStepView::MapEntries { offsets, .. } => offsets.len() - 1,
    }
}

/// Whether every offset fits in an `i32`.
pub open spec fn offsets_fit_i32(o: Seq<u32>) -> bool {
    forall|i: int| 0 <= i < o.len() ==> #[trigger] o[i] <= i32::MAX
}

/// Offsets narrowed to `i32`.
pub open spec fn narrowed_offsets(o: Seq<u32>) -> Seq<i32> {
    o.map_values(|x: u32| x as i32)
}

/// A nested node's validity flags over `rows` rows: none without a bitmap.
pub open spec fn spec_node_flags(v: Option<ValidityBitmap>, rows: nat) -> Result<
    Option<Seq<bool>>,
    ErrorCode,
> {
    match v {
        None => Ok(None),
        Some(b) => match spec_valid_flags(b.bytes(), b.row_count(), rows) {
            Ok(f) => Ok(Some(f)),
            Err(e) => Err(e),
        },
    }
}

/// Whether map keys may be exported: a key array without a bitmap, or one
/// whose bitmap covers its rows and marks none of them null; a short bitmap
/// gives `BufferTooShort` and a null key `UnsupportedEncoding`.
pub open spec fn spec_key_nulls_check(v: Option<ValidityBitmap>) -> Result<(), ErrorCode> {
    match v {
        None => Ok(()),
        Some(b) => if bitmap_bytes(b.row_count() as int) > b.bytes().len() {
            Err(ErrorCode::BufferTooShort)
        } else if count_set_bits(b.bytes(), b.row_count() as nat) != 0 {
            Err(ErrorCode::UnsupportedEncoding)
        } else {
            Ok(())
        },
    }
}

/// One more than the number of fields of a struct node; zero otherwise.
pub open spec fn plan_measure(node: ArrowExportNode) -> int {
    match node {
        ArrowExportNode::Struct { fields, .. } => fields@.len() as int + 1,
        _ => 0,
    }
}

/// The plan of an export tree, or the first error its checks meet. A list
/// node checks its offsets (`PageCorrupt`), narrows them to `i32`
/// (`UnsupportedEncoding`), plans its child, checks that the child has as
/// many rows as the last offset (`PageCorrupt`) and reads its validity
/// flags. A struct node checks its layout and that it has one field per
/// layout entry (`PageCorrupt`), plans each field in order and checks its row
/// count against the layout (`PageCorrupt`), then reads its validity flags
/// over the shared row count (`ArithOverflow` when that count does not fit in
/// `usize`). A map node checks and narrows its offsets, requires scalar keys
/// (`PageCorrupt`) without nulls, plans its values, checks that keys and
/// values both have as many rows as the last offset (`PageCorrupt`) and reads
/// its validity flags.
pub open spec fn spec_export_plan(node: ArrowExportNode) -> Result<Seq<ExportStepView>, ErrorCode>
    decreases node, plan_measure(node),
{
    match node {
        ArrowExportNode::Scalar { array, .. } => Ok(
            seq![ExportStepView::Scalar { rows: array.row_count }],
        ),
        ArrowExportNode::List { layout, child, validity } => {
            let o = layout.offsets@;
            if !valid_list_offsets(o) {
                Err(ErrorCode::PageCorrupt)
            } else if !offsets_fit_i32(o) {
                Err(ErrorCode::UnsupportedEncoding)
            } else {
                match spec_export_plan(*child) {
                    Err(e) => Err(e),
                    Ok(cp) => if step_rows(cp[0]) != o.last() as int {
                        Err(ErrorCode::PageCorrupt)
                    } else {
                        match spec_node_flags(validity, (o.len() - 1) as nat) {
                            Err(e) => Err(e),
                            Ok(f) => Ok(
                                seq![
                                    ExportStepView::List {
                                        offsets: narrowed_offsets(o),
                                        validity: f,
                                    },
                                ] + cp,
                            ),
                        }
                    },
                }
            }
        },
        ArrowExportNode::Struct { layout, fields, validity } => {
            let counts = layout.field_row_counts@;
            if !(counts.len() > 0 && forall|i: int|
                0 <= i < counts.len() ==> #[trigger] counts[i] == counts[0]) {
                Err(ErrorCode::PageCorrupt)
            } else if fields@.len() != counts.len() {
                Err(ErrorCode::PageCorrupt)
            } else {
                match spec_field_plans(node, fields@.len() as int) {
                    Err(e) => Err(e),
                    Ok(fp) => if counts[0] > usize::MAX {
                        Err(ErrorCode::ArithOverflow)
                    } else {
                        match spec_node_flags(validity, counts[0] as nat) {
                            Err(e) => Err(e),
                            Ok(f) => Ok(
                                seq![ExportStepView::Struct { rows: counts[0], validity: f }] + fp,
                            ),
                        }
                    },
                }
            }
        },
        ArrowExportNode::MapEntries { layout, keys, values, validity, ordered } => {
            let o = layout.offsets@;
            if !valid_list_offsets(o) {
                Err(ErrorCode::PageCorrupt)
            } else if !offsets_fit_i32(o) {
                Err(ErrorCode::UnsupportedEncoding)
            } else {
                match *keys {
                    ArrowExportNode::Scalar { array, .. } => match spec_key_nulls_check(
                        array.validity,
                    ) {
                        Err(e) => Err(e),
                        Ok(_) => match spec_export_plan(*values) {
                            Err(e) => Err(e),
                            Ok(vp) => if array.row_count != o.last() || step_rows(vp[0])
                                != o.last() as int {
                                Err(ErrorCode::PageCorrupt)
                            } else {
                                match spec_node_flags(validity, (o.len() - 1) as nat) {
                                    Err(e) => Err(e),
                                    Ok(f) => Ok(
                                        seq![
                                            ExportStepView::MapEntries {
                                                offsets: narrowed_offsets(o),
                                                validity: f,
                                                ordered,
                                            },
                                            ExportStepView::Scalar { rows: array.row_count },
                                        ] + vp,
                                    ),
                                }
                            },
                        },
                    },
                    _ => Err(ErrorCode::PageCorrupt),
                }
            }
        },
    }
}

/// The plans of the first `k` fields of a struct node, one after another,
/// each checked against its layout row count; empty for other nodes.
pub open spec fn spec_field_plans(node: ArrowExportNode, k: int) -> Result<
    Seq<ExportStepView>,
    ErrorCode,
>
    decreases node, k,
{
    match node {
        ArrowExportNode::Struct { layout, fields, .. } => if k <= 0 || k > fields@.len() {
            Ok(Seq::empty())
        } else {
            match spec_field_plans(node, k - 1) {
                Err(e) => Err(e),
                Ok(prev) => {
                    proof {
                        assert(decreases_to!(fields => fields@));
                        assert(decreases_to!(fields@ => fields@[k - 1]));
                        assert(decreases_to!(fields@[k - 1] => fields@[k - 1].node));
                    }
                    match spec_export_plan(fields@[k - 1].node) {
                        Err(e) => Err(e),
                        Ok(fp) => if step_rows(fp[0]) != layout.field_row_counts@[k - 1] as int {
                            Err(ErrorCode::PageCorrupt)
                        } else {
                            Ok(prev + fp)
                        },
                    }
                },
            }
        },
        _ => Ok(Seq::empty()),
    }
}

/// Every plan that the checks give holds at least the step of its root.
proof fn lemma_plan_nonempty(node: ArrowExportNode)
    ensures
        spec_export_plan(node) matches Ok(p) ==> p.len() > 0,
{
}

/// Once a field's plan fails, the plans of all later prefixes fail the same
/// way.
proof fn lemma_field_error_sticks(node: ArrowExportNode, j: int, m: int)
    requires
        node is Struct,
        0 <= j <= m <= node->Struct_fields@.len(),
        spec_field_plans(node, j) is Err,
    ensures
        spec_field_plans(node, m) == spec_field_plans(node, j),
    decreases m - j,
{
    if m > j {
        lemma_field_error_sticks(node, j, m - 1);
    }
}

proof fn lemma_view_append(a: Seq<ExportStep>, b: Seq<ExportStep>)
    ensures
        (a + b).map_values(|s: ExportStep| s@) == a.map_values(|s: ExportStep| s@) + b.map_values(
            |s: ExportStep| s@,
        ),
{
    assert((a + b).map_values(|s: ExportStep| s@) =~= a.map_values(|s: ExportStep| s@)
        + b.map_values(|s: ExportStep| s@));
}

/// The number of rows of the array that the first step of `steps` describes.
fn first_step_rows(steps: &Vec<ExportStep>) -> (res: i128)
    requires
        steps@.len() > 0,
    ensures
        res as int == step_rows(steps@.map_values(|s: ExportStep| s@)[0]),
{
    match &steps[0] {
        ExportStep::Scalar { rows } => *rows as i128,
        ExportStep::List { offsets, .. } => offsets.len() as i128 - 1,
        ExportStep::Struct { rows, .. } => *rows as i128,
        ExportStep::MapEntries { offsets, .. } => offsets.len() as i128 - 1,
    }
}

/// A nested node's validity flags over `rows` rows.
fn node_flags(v: &Option<ValidityBitmap<'_>>, rows: usize) -> (res: Result<Option<Vec<bool>>, CoveError>)
    ensures
        match spec_node_flags(*v, rows as nat) {
            Ok(f) => (res matches Ok(r) && flags_view(r) == f),
            Err(c) => fails_with(res, c),
        },
{
    match v {
        None => Ok(None),
        Some(b) => match b.valid_flags(rows) {
            Ok(f) => Ok(Some(f)),
            Err(e) => Err(e),
        },
    }
}

/// Checks that map keys hold no nulls.
fn check_key_nulls(v: &Option<ValidityBitmap<'_>>) -> (res: Result<(), CoveError>)
    ensures
        match spec_key_nulls_check(*v) {
            Ok(_) => res is Ok,
            Err(c) => fails_with(res, c),
        },
{
    match v {
        None => Ok(()),
        Some(b) => match {
            proof {
                crate::validity::lemma_count_set_bits_bound(b.bytes(), b.row_count() as nat);
            }
            b.null_count()
        } {
            Err(e) => Err(e),
            Ok(n) => if n != 0 {
                Err(CoveError::UnsupportedEncoding(text("Arrow map export requires non-null map keys")))
            } else {
                Ok(())
            },
        },
    }
}

/// Checks an export tree and plans it, one step per node in pre-order (see
/// [`spec_export_plan`] for the checks and the order in which they run).
pub fn export_node_plan(node: &ArrowExportNode<'_>) -> (res: Result<ExportPlan, CoveError>)
    ensures
        match spec_export_plan(*node) {
            Ok(p) => (res matches Ok(r) && r@ == p),
            Err(c) => fails_with(res, c),
        },
    decreases *node,
{
    match node {
        ArrowExportNode::Scalar { array, .. } => {
            let steps = vec![ExportStep::Scalar { rows: array.row_count }];
            let plan = ExportPlan { steps };
            proof {
                assert(plan@ =~= seq![ExportStepView::Scalar { rows: array.row_count }]);
            }
            Ok(plan)
        },
        ArrowExportNode::List { layout, child, validity } => {
            match layout.validate() {
                Ok(()) => {},
                Err(e) => return Err(e),
            }
            let offsets = match arrow_i32_offsets(layout.offsets.as_slice()) {
                Ok(v) => v,
                Err(e) => return Err(e),
            };
            let child_plan = match export_node_plan(&**child) {
                Ok(p) => p,
                Err(e) => return Err(e),
            };
            proof {
                lemma_plan_nonempty(**child);
            }
            let n = layout.offsets.len();
            let last = layout.offsets[n - 1];
            if first_step_rows(&child_plan.steps) != last as i128 {
                return Err(CoveError::PageCorrupt);
            }
            let flags = match node_flags(validity, n - 1) {
                Ok(f) => f,
                Err(e) => return Err(e),
            };
            let ghost o = layout.offsets@;
            proof {
                assert(offsets@ =~= narrowed_offsets(o));
            }
            let mut steps = vec![ExportStep::List { offsets, validity: flags }];
            let mut rest = child_plan.steps;
            let ghost head = steps@;
            let ghost tail = rest@;
            steps.append(&mut rest);
            proof {
                lemma_view_append(head, tail);
                assert(head.map_values(|s: ExportStep| s@) =~= seq![
                    ExportStepView::List { offsets: narrowed_offsets(o), validity: flags_view(flags) },
                ]);
            }
            Ok(ExportPlan { steps })
        },
        ArrowExportNode::Struct { layout, fields, validity } => {
            match layout.validate() {
                Ok(()) => {},
                Err(e) => return Err(e),
            }
            if fields.len() != layout.field_row_counts.len() {
                return Err(CoveError::PageCorrupt);
            }
            let mut field_steps: Vec<ExportStep> = Vec::new();
            let mut k: usize = 0;
            proof {
                assert(field_steps@.map_values(|s: ExportStep| s@) =~= Seq::<ExportStepView>::empty());
            }
            while k < fields.len()
                invariant
                    *node == (ArrowExportNode::Struct {
                        layout: *layout,
                        fields: *fields,
                        validity: *validity,
                    }),
                    k <= fields@.len(),
                    fields@.len() == layout.field_row_counts@.len(),
                    layout.field_row_counts@.len() > 0,
                    forall|i: int|
                        0 <= i < layout.field_row_counts@.len() ==> #[trigger] layout.field_row_counts@[i]
                            == layout.field_row_counts@[0],
                    spec_field_plans(*node, k as int) == Ok::<Seq<ExportStepView>, ErrorCode>(
                        field_steps@.map_values(|s: ExportStep| s@),
                    ),
                decreases fields@.len() - k,
            {
                proof {
                    assert(decreases_to!(*node => *fields));
                    assert(decreases_to!(*fields => fields@));
                    assert(decreases_to!(fields@ => fields@[k as int]));
                    assert(decreases_to!(fields@[k as int] => fields@[k as int].node));
                }
                let fp = match export_node_plan(&fields[k].node) {
                    Ok(p) => p,
                    Err(e) => {
                        proof {
                            assert(spec_export_plan(fields@[k as int].node) is Err);
                            assert(spec_field_plans(*node, k + 1) == spec_export_plan(
                                fields@[k as int].node,
                            ));
                            lemma_field_error_sticks(*node, k + 1, fields@.len() as int);
                        }
                        return Err(e);
                    },
                };
                proof {
                    lemma_plan_nonempty(fields@[k as int].node);
                }
                if first_step_rows(&fp.steps) != layout.field_row_counts[k] as i128 {
                    proof {
                        lemma_field_error_sticks(*node, k + 1, fields@.len() as int);
                    }
                    return Err(CoveError::PageCorrupt);
                }
                let mut more = fp.steps;
                let ghost before = field_steps@;
                let ghost added = more@;
                field_steps.append(&mut more);
                proof {
                    lemma_view_append(before, added);
                }
                k = k + 1;
            }
            let rows = layout.field_row_counts[0];
            if rows > usize::MAX as u64 {
                return Err(CoveError::ArithOverflow);
            }
            let flags = match node_flags(validity, rows as usize) {
                Ok(f) => f,
                Err(e) => return Err(e),
            };
            let mut steps = vec![ExportStep::Struct { rows, validity: flags }];
            let ghost head = steps@;
            let ghost tail = field_steps@;
            steps.append(&mut field_steps);
            proof {
                lemma_view_append(head, tail);
                assert(head.map_values(|s: ExportStep| s@) =~= seq![
                    ExportStepView::Struct { rows, validity: flags_view(flags) },
                ]);
            }
            Ok(ExportPlan { steps })
        },
        ArrowExportNode::MapEntries { layout, keys, values, validity, ordered } => {
            match layout.validate() {
                Ok(()) => {},
                Err(e) => return Err(e),
            }
            let offsets = match arrow_i32_offsets(layout.offsets.as_slice()) {
                Ok(v) => v,
                Err(e) => return Err(e),
            };
            let key_array = match &**keys {
                ArrowExportNode::Scalar { array, .. } => *array,
                _ => return Err(CoveError::PageCorrupt),
            };
            match check_key_nulls(&key_array.validity) {
                Ok(()) => {},
                Err(e) => return Err(e),
            }
            let value_plan = match export_node_plan(&**values) {
                Ok(p) => p,
                Err(e) => return Err(e),
            };
            proof {
                lemma_plan_nonempty(**values);
            }
            let n = layout.offsets.len();
            let last = layout.offsets[n - 1];
            if key_array.row_count != last as u64 || first_step_rows(&value_plan.steps)
                != last as i128 {
                return Err(CoveError::PageCorrupt);
            }
            let flags = match node_flags(validity, n - 1) {
                Ok(f) => f,
                Err(e) => return Err(e),
            };
            let ghost o = layout.offsets@;
            proof {
                assert(offsets@ =~= narrowed_offsets(o));
            }
            let mut steps = vec![
                ExportStep::MapEntries { offsets, validity: flags, ordered: *ordered },
                ExportStep::Scalar { rows: key_array.row_count },
            ];
            let mut rest = value_plan.steps;
            let ghost head = steps@;
            let ghost tail = rest@;
            steps.append(&mut rest);
            proof {
                lemma_view_append(head, tail);
                assert(head.map_values(|s: ExportStep| s@) =~= seq![
                    ExportStepView::MapEntries {
                        offsets: narrowed_offsets(o),
                        validity: flags_view(flags),
                        ordered: *ordered,
                    },
                    ExportStepView::Scalar { rows: key_array.row_count },
                ]);
            }
            Ok(ExportPlan { steps })
        },
    }
}

} // verus!
