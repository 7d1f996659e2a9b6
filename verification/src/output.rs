//! Projection: the rows the renderers consume. Selected paths are looked up
//! as subtrees; without a selection, a summary keeps only the name and a
//! describe listing keeps every leaf.

use vstd::prelude::*;

use crate::jsonv::JsonValue;
use crate::jsonv::JsonVal;
use crate::object::{obj_wf, spec_entries_get, spec_entries_insert, DynamicObject, FieldMap};
use crate::path::{select_path_value, spec_encode_path, spec_select_subtree};
use crate::text::strs_view;

verus! {

broadcast use crate::text::lemma_strs_view_len, crate::text::lemma_strs_view_index;

/// How rows are rendered.
#[derive(Clone, Copy, Debug, PartialEq, Eq, Structural)]
pub enum OutputFormat {
    Table,
    Json,
    Yaml,
}

/// How much of an object a row without a selection shows.
#[derive(Clone, Copy, Debug, PartialEq, Eq, Structural)]
pub enum DetailLevel {
    Summary,
    Describe,
}

/// What one selected path contributes to a row: the exact entry's value, the
/// rebuilt subtree, or null when the path has neither.
pub open spec fn spec_selected_value(m: Seq<(Seq<char>, JsonVal)>, path: Seq<char>) -> JsonVal {
    let enc = spec_encode_path(path);
    match spec_entries_get(m, enc) {
        Some(v) => v,
        None => {
            let sub = spec_select_subtree(m, enc + "."@);
            if sub.1 {
                sub.0
            } else {
                JsonVal::Null
            }
        },
    }
}

/// The row a paths selection projects: each path's selected value stored
/// under the path itself.
pub open spec fn spec_projected_row(
    m: Seq<(Seq<char>, JsonVal)>,
    paths: Seq<Seq<char>>,
    i: int,
    acc: Seq<(Seq<char>, JsonVal)>,
) -> Seq<(Seq<char>, JsonVal)>
    decreases paths.len() - i,
    when 0 <= i <= paths.len()
{
    if i == paths.len() {
        acc
    } else {
        spec_projected_row(
            m,
            paths,
            i + 1,
            spec_entries_insert(acc, paths[i], spec_selected_value(m, paths[i])),
        )
    }
}

/// The name a summary row shows: the object's `metadata.name`, a dash
/// standing in when unnamed.
pub open spec fn spec_summary_name(m: Seq<(Seq<char>, JsonVal)>) -> JsonVal {
    match spec_entries_get(m, "metadata.name"@) {
        Some(v) => v,
        None => JsonVal::Str("-"@),
    }
}

/// The row one object projects to: the selected paths when a selection is
/// given — absent values become nulls — else every leaf for a describe
/// listing, else only the object's name.
pub fn project_fields(
    object: &DynamicObject,
    detail: DetailLevel,
    select_paths: Option<&Vec<String>>,
) -> (r: FieldMap)
    requires
        obj_wf(object),
    ensures
        r.wf(),
        match select_paths {
            Some(paths) => r@ == spec_projected_row(
                object@,
                strs_view(paths@),
                0,
                Seq::empty(),
            ),
            None => match detail {
                DetailLevel::Describe => r@ == object@,
                DetailLevel::Summary => r@ == spec_entries_insert(
                    Seq::empty(),
                    "name"@,
                    spec_summary_name(object@),
                ),
            },
        },
{
    match select_paths {
        Some(paths) => {
            let mut row = FieldMap::new();
            let mut i: usize = 0;
            while i < paths.len()
                invariant
                    i <= paths@.len(),
                    crate::object::obj_wf(object),
                    row.wf(),
                    spec_projected_row(object@, strs_view(paths@), 0, Seq::empty())
                        == spec_projected_row(object@, strs_view(paths@), i as int, row@),
                decreases paths@.len() - i,
            {
                let value = match select_path_value(&object.fields, paths[i].as_str()) {
                    Some(v) => v,
                    None => JsonValue::Null,
                };
                proof {
                    assert(value@ == spec_selected_value(object@, paths@[i as int]@));
                }
                row.insert(crate::jsonv::clone_string(&paths[i]), value);
                i = i + 1;
            }
            row
        },
        None => match detail {
            DetailLevel::Describe => object.fields.duplicate(),
            DetailLevel::Summary => {
                proof {
                    reveal_strlit("metadata.name");
                }
                let name: JsonValue = match object.fields.get("metadata.name") {
                    Some(v) => v.duplicate(),
                    None => JsonValue::Str(String::from_str("-")),
                };
                let mut row = FieldMap::new();
                row.insert(String::from_str("name"), name);
                row
            },
        },
    }
}

/// The ordered output columns per §4.7's reading of the selection: the
/// selection list itself for paths, the single row's keys for an
/// aggregation, none otherwise.
pub fn output_paths_for_rows(
    plan: &crate::engine::QueryPlan,
    rows: &Vec<DynamicObject>,
) -> (r: Option<Vec<String>>)
    ensures
        match plan.selection {
            Some(crate::engine::EngineSelection::Paths(ref paths)) => (r matches Some(out)
                && strs_view(out@) == strs_view(paths@)),
            Some(crate::engine::EngineSelection::Aggregations(_)) => (r matches Some(out)
                && strs_view(out@) == (if rows@.len() > 0 {
                Seq::new(rows@[0]@.len(), |i: int| rows@[0]@[i].0)
            } else {
                Seq::empty()
            })),
            None => r is None,
        },
{
    match &plan.selection {
        Some(crate::engine::EngineSelection::Paths(paths)) => {
            let mut out: Vec<String> = Vec::new();
            let mut i: usize = 0;
            while i < paths.len()
                invariant
                    i <= paths@.len(),
                    out@.len() == i,
                    forall|j: int| 0 <= j < i ==> #[trigger] out@[j]@ == paths@[j]@,
                decreases paths@.len() - i,
            {
                out.push(crate::jsonv::clone_string(&paths[i]));
                i = i + 1;
            }
            proof {
                assert forall|j: int| 0 <= j < out@.len() implies #[trigger] strs_view(out@)[j]
                    == strs_view(paths@)[j] by {
                    assert(out@[j]@ == paths@[j]@);
                }
                assert(strs_view(out@) =~= strs_view(paths@));
            }
            Some(out)
        },
        Some(crate::engine::EngineSelection::Aggregations(_)) => {
            let mut out: Vec<String> = Vec::new();
            if rows.len() > 0 {
                let row = &rows[0];
                let n = row.fields.len();
                let mut i: usize = 0;
                while i < n
                    invariant
                        rows@.len() > 0,
                        i <= n,
                        n == rows@[0]@.len(),
                        row == &rows@[0],
                        out@.len() == i,
                        forall|j: int| 0 <= j < i ==> #[trigger] out@[j]@ == rows@[0]@[j].0,
                    decreases n - i,
                {
                    out.push(crate::jsonv::clone_string(row.fields.key_at(i)));
                    i = i + 1;
                }
            }
            proof {
                let goal: Seq<Seq<char>> = if rows@.len() > 0 {
                    Seq::new(rows@[0]@.len(), |i: int| rows@[0]@[i].0)
                } else {
                    Seq::empty()
                };
                assert forall|j: int| 0 <= j < out@.len() implies #[trigger] strs_view(out@)[j]
                    == goal[j] by {
                    assert(out@[j]@ == rows@[0]@[j].0);
                }
                assert(strs_view(out@) =~= goal);
            }
            Some(out)
        },
        None => None,
    }
}

} // verus!
