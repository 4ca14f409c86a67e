//! The warnings that reading a plan's records gives: list items that are not maps, fields
//! that are missing or of the wrong kind (the item is then skipped), and fields that a
//! record does not read.
use vstd::prelude::*;
use crate::errors::{Error, error_message};
use crate::plan::{
    PlanSources,
    battlefront_of,
    campaign_of,
    lemma_without_field,
    problem_of,
    release_of,
    team_of,
    without_field,
};
use crate::text::{decimal, format_u64};
use crate::yaml::{
    YamlValue,
    bool_field,
    field_value,
    string_field,
    lookup_bool,
    lookup_string,
    root_yaml_to_vec,
    yaml_from_str,
    yaml_load,
};

verus! {

/// A warning about a record of a data file.
#[derive(Debug)]
pub enum ReadWarning {
    /// Item `index` of the list of `kind` records is not a map; it is skipped.
    NotAMap { kind: String, index: usize },
    /// A field of a `kind` record could not be read; the record is named by its position
    /// where its id could not be read, by its id otherwise. It is skipped.
    BadField { kind: String, record: String, error: Error },
    /// A `kind` record has a field that it does not read; the field's key.
    ExtraField { kind: String, record: String, key: YamlValue },
}

/// The content of a warning about a record.
pub enum ReadWarningView {
    NotAMap { kind: Seq<char>, index: usize },
    BadField { kind: Seq<char>, record: Seq<char>, message: Seq<char> },
    ExtraField { kind: Seq<char>, record: Seq<char>, key: YamlValue },
}

impl View for ReadWarning {
    type V = ReadWarningView;

    open spec fn view(&self) -> ReadWarningView {
        match self {
            ReadWarning::NotAMap { kind, index } => ReadWarningView::NotAMap {
                kind: kind@,
                index: *index,
            },
            ReadWarning::BadField { kind, record, error } => ReadWarningView::BadField {
                kind: kind@,
                record: record@,
                message: error_message(*error),
            },
            ReadWarning::ExtraField { kind, record, key } => ReadWarningView::ExtraField {
                kind: kind@,
                record: record@,
                key: *key,
            },
        }
    }
}

/// The text printed for a warning; for an extra field the key follows it, as the YAML
/// reader's `Debug` writes the key.
pub open spec fn read_warning_text(w: ReadWarningView) -> Seq<char> {
    match w {
        ReadWarningView::NotAMap { kind, index } => kind + " "@ + decimal(index as nat)
            + " is not a map"@,
        ReadWarningView::BadField { kind, record, message } => kind + " "@ + record + "; "@
            + message,
        ReadWarningView::ExtraField { kind, record, key } => kind + " "@ + record
            + " has extra field: "@,
    }
}

impl ReadWarning {
    /// The text printed for this warning; for an extra field the key follows it.
    pub fn text(&self) -> (r: String)
        ensures
            r@ == read_warning_text(self@),
    {
        match self {
            ReadWarning::NotAMap { kind, index } => {
                let mut s = kind.clone();
                s.append(" ");
                let n = format_u64(*index as u64);
                s.append(n.as_str());
                s.append(" is not a map");
                s
            },
            ReadWarning::BadField { kind, record, error } => {
                let mut s = kind.clone();
                s.append(" ");
                s.append(record.as_str());
                s.append("; ");
                let m = error.message();
                s.append(m.as_str());
                s
            },
            ReadWarning::ExtraField { kind, record, .. } => {
                let mut s = kind.clone();
                s.append(" ");
                s.append(record.as_str());
                s.append(" has extra field: ");
                s
            },
        }
    }
}

/// The content of a list of warnings.
pub open spec fn read_warnings_view(ws: Seq<ReadWarning>) -> Seq<ReadWarningView> {
    Seq::new(ws.len(), |i: int| ws[i]@)
}

/// The fields a record reads, in order: each name, and whether it holds a boolean (else a
/// string); the first is the record's id.
pub open spec fn field_specs(fields: Seq<(&str, bool)>) -> Seq<(Seq<char>, bool)> {
    Seq::new(fields.len(), |i: int| (fields[i].0@, fields[i].1))
}

/// The warnings from reading fields `k` on of a map that fields before `k` were taken out
/// of, `id` being the record's id once read: the first field that cannot be read, or, where
/// all can, each field left over.
pub open spec fn field_warnings(
    kind: Seq<char>,
    index: usize,
    m: Seq<(YamlValue, YamlValue)>,
    fields: Seq<(Seq<char>, bool)>,
    k: int,
    id: Seq<char>,
) -> Seq<ReadWarningView>
    decreases fields.len() - k,
{
    if k < 0 || k >= fields.len() {
        Seq::new(m.len(), |j: int| ReadWarningView::ExtraField { kind, record: id, key: m[j].0 })
    } else {
        let name = fields[k].0;
        let record = if k == 0 {
            decimal(index as nat)
        } else {
            id
        };
        let rest = without_field(m, name);
        if fields[k].1 {
            match bool_field(m, name) {
                Some(_) => field_warnings(kind, index, rest, fields, k + 1, id),
                None => seq![ReadWarningView::BadField { kind, record, message: "not a bool"@ }],
            }
        } else {
            match field_value(m, name) {
                Some(YamlValue::Str(s)) => field_warnings(
                    kind,
                    index,
                    rest,
                    fields,
                    k + 1,
                    if k == 0 {
                        s@
                    } else {
                        id
                    },
                ),
                Some(_) => seq![ReadWarningView::BadField { kind, record, message: "not a string"@ }],
                None => seq![
                    ReadWarningView::BadField {
                        kind,
                        record,
                        message: "missing field `"@ + name + "`"@,
                    },
                ],
            }
        }
    }
}

/// The warnings from reading item `index` of a list of `kind` records.
pub open spec fn item_warnings(
    kind: Seq<char>,
    index: usize,
    item: YamlValue,
    fields: Seq<(Seq<char>, bool)>,
) -> Seq<ReadWarningView> {
    match item {
        YamlValue::Hash(m) => field_warnings(kind, index, m@, fields, 0, Seq::empty()),
        _ => seq![ReadWarningView::NotAMap { kind, index }],
    }
}

/// The warnings from reading a list of `kind` records, item by item.
pub open spec fn list_warnings(
    kind: Seq<char>,
    items: Seq<YamlValue>,
    fields: Seq<(Seq<char>, bool)>,
) -> Seq<ReadWarningView>
    decreases items.len(),
{
    if items.len() == 0 {
        seq![]
    } else {
        list_warnings(kind, items.drop_last(), fields) + item_warnings(
            kind,
            (items.len() - 1) as usize,
            items.last(),
            fields,
        )
    }
}

fn bad_field(kind: &str, k: usize, index: usize, id: &String, error: Error) -> (r: ReadWarning)
    ensures
        r@ == (ReadWarningView::BadField {
            kind: kind@,
            record: if k == 0 {
                decimal(index as nat)
            } else {
                id@
            },
            message: error_message(error),
        }),
{
    let record = if k == 0 {
        format_u64(index as u64)
    } else {
        id.clone()
    };
    ReadWarning::BadField { kind: String::from_str(kind), record, error }
}

/// The warnings from reading item `index` of a list of `kind` records, which reads
/// `fields`.
pub fn read_item_warnings(kind: &str, index: usize, item: YamlValue, fields: &Vec<(&str, bool)>) -> (r:
    Vec<ReadWarning>)
    ensures
        read_warnings_view(r@) == item_warnings(kind@, index, item, field_specs(fields@)),
{
    let ghost fs = field_specs(fields@);
    let ghost target = item_warnings(kind@, index, item, fs);
    match item {
        YamlValue::Hash(m) => {
            let ghost m0 = m@;
            assert(target == field_warnings(kind@, index, m0, fs, 0, Seq::empty()));
            let mut map = m;
            let mut id = String::new();
            let mut k: usize = 0;
            proof {
                reveal_strlit("not a bool");
                reveal_strlit("not a string");
                reveal_strlit("missing field `");
                reveal_strlit("`");
            }
            while k < fields.len()
                invariant
                    fs == field_specs(fields@),
                    k <= fs.len(),
                    target == field_warnings(kind@, index, m0, fs, 0, Seq::empty()),
                    target == item_warnings(kind@, index, item, field_specs(fields@)),
                    field_warnings(kind@, index, m0, fs, 0, Seq::empty()) == field_warnings(
                        kind@,
                        index,
                        map@,
                        fs,
                        k as int,
                        id@,
                    ),
                decreases fs.len() - k,
            {
                let (name, is_bool) = fields[k];
                assert(fs[k as int] == (name@, is_bool));
                let ghost before = map@;
                if is_bool {
                    match lookup_bool(&mut map, name) {
                        Ok(_) => {
                            assert(map@ == without_field(before, name@));
                        },
                        Err(e) => {
                            let w = bad_field(kind, k, index, &id, e);
                            let out = vec![w];
                            assert(read_warnings_view(out@) =~= field_warnings(
                                kind@,
                                index,
                                before,
                                fs,
                                k as int,
                                id@,
                            ));
                            assert(read_warnings_view(out@) == target);
                            return out;
                        },
                    }
                } else {
                    match lookup_string(&mut map, name) {
                        Ok(s) => {
                            assert(map@ == without_field(before, name@));
                            if k == 0 {
                                id = s;
                            }
                        },
                        Err(e) => {
                            let w = bad_field(kind, k, index, &id, e);
                            let out = vec![w];
                            assert(read_warnings_view(out@) =~= field_warnings(
                                kind@,
                                index,
                                before,
                                fs,
                                k as int,
                                id@,
                            ));
                            assert(read_warnings_view(out@) == target);
                            return out;
                        },
                    }
                }
                k = k + 1;
            }
            let ghost rest = map@;
            let mut out: Vec<ReadWarning> = Vec::new();
            let n = map.len();
            let mut j: usize = 0;
            while j < n
                invariant
                    n == rest.len(),
                    j <= n,
                    target == field_warnings(kind@, index, rest, fs, k as int, id@),
                    k == fs.len(),
                    map@ == rest.skip(j as int),
                    read_warnings_view(out@) == Seq::new(
                        j as nat,
                        |q: int| ReadWarningView::ExtraField { kind: kind@, record: id@, key: rest[q].0 },
                    ),
                decreases n - j,
            {
                assert(map@[0] == rest[j as int]);
                let entry = map.remove(0);
                assert(map@ =~= rest.skip(j + 1));
                let ghost prev = out@;
                assert(prev.len() == j) by {
                    assert(read_warnings_view(prev).len() == prev.len());
                }
                let w = ReadWarning::ExtraField {
                    kind: String::from_str(kind),
                    record: id.clone(),
                    key: entry.0,
                };
                assert(w@ == ReadWarningView::ExtraField { kind: kind@, record: id@, key: rest[j as int].0 });
                out.push(w);
                assert forall|q: int| 0 <= q < j + 1 implies #[trigger] read_warnings_view(out@)[q]
                    == ReadWarningView::ExtraField { kind: kind@, record: id@, key: rest[q].0 } by {
                    if q < j {
                        assert(out@[q] == prev[q]);
                        assert(read_warnings_view(prev)[q] == prev[q]@);
                    }
                }
                assert(read_warnings_view(out@) =~= Seq::new(
                    (j + 1) as nat,
                    |q: int| ReadWarningView::ExtraField { kind: kind@, record: id@, key: rest[q].0 },
                ));
                j = j + 1;
            }
            assert(read_warnings_view(out@) =~= field_warnings(kind@, index, rest, fs, k as int, id@));
            out
        },
        other => {
            let out = vec![ReadWarning::NotAMap { kind: String::from_str(kind), index }];
            assert(read_warnings_view(out@) =~= item_warnings(kind@, index, other, fs));
            out
        },
    }
}

proof fn lemma_view_add(a: Seq<ReadWarning>, b: Seq<ReadWarning>)
    ensures
        read_warnings_view(a + b) == read_warnings_view(a) + read_warnings_view(b),
{
    assert(read_warnings_view(a + b) =~= read_warnings_view(a) + read_warnings_view(b));
}

/// The warnings from reading a list of `kind` records, which read `fields`, item by item.
pub fn read_list_warnings(kind: &str, items: Vec<YamlValue>, fields: &Vec<(&str, bool)>) -> (r: Vec<
    ReadWarning,
>)
    ensures
        read_warnings_view(r@) == list_warnings(kind@, items@, field_specs(fields@)),
{
    let ghost fs = field_specs(fields@);
    let ghost all = items@;
    let mut items = items;
    let n = items.len();
    let mut out: Vec<ReadWarning> = Vec::new();
    let mut i: usize = 0;
    assert(all.skip(0) =~= all);
    assert(all.take(0) =~= Seq::<YamlValue>::empty());
    assert(read_warnings_view(out@) =~= Seq::<ReadWarningView>::empty());
    while i < n
        invariant
            n == all.len(),
            i <= n,
            fs == field_specs(fields@),
            items@ == all.skip(i as int),
            read_warnings_view(out@) == list_warnings(kind@, all.take(i as int), fs),
        decreases n - i,
    {
        assert(items@[0] == all[i as int]);
        let item = items.remove(0);
        assert(items@ =~= all.skip(i + 1));
        let mut w = read_item_warnings(kind, i, item, fields);
        let ghost prev = out@;
        let ghost ws = w@;
        out.append(&mut w);
        proof {
            lemma_view_add(prev, ws);
            let t = all.take(i + 1);
            assert(t.drop_last() =~= all.take(i as int));
            assert(t.last() == all[i as int]);
            assert((t.len() - 1) as usize == i);
        }
        i = i + 1;
    }
    assert(all.take(n as int) =~= all);
    out
}

/// The first document of a data file is a list.
pub open spec fn lists_records(docs: Seq<YamlValue>) -> bool {
    docs.len() > 0 && docs[0] is Array
}

/// The warnings from reading the `kind` records that the documents of a data file list;
/// none where the first document is not a list.
pub open spec fn docs_warnings(
    kind: Seq<char>,
    docs: Seq<YamlValue>,
    fields: Seq<(Seq<char>, bool)>,
) -> Seq<ReadWarningView> {
    if docs.len() > 0 {
        match docs[0] {
            YamlValue::Array(a) => list_warnings(kind, a@, fields),
            _ => seq![],
        }
    } else {
        seq![]
    }
}

fn read_docs_warnings(kind: &str, docs: Vec<YamlValue>, fields: &Vec<(&str, bool)>) -> (r: (
    Vec<ReadWarning>,
    bool,
))
    ensures
        r.1 == lists_records(docs@),
        read_warnings_view(r.0@) == docs_warnings(kind@, docs@, field_specs(fields@)),
{
    let ghost d = docs@;
    match root_yaml_to_vec(docs, kind) {
        Ok(items) => {
            let w = read_list_warnings(kind, items, fields);
            (w, true)
        },
        Err(_) => {
            let w: Vec<ReadWarning> = Vec::new();
            assert(read_warnings_view(w@) =~= Seq::<ReadWarningView>::empty());
            (w, false)
        },
    }
}

/// The fields a battlefront reads.
pub open spec fn battlefront_fields() -> Seq<(Seq<char>, bool)> {
    seq![("id"@, false), ("name"@, false), ("team"@, false), ("top"@, true), ("pitch"@, false)]
}

/// The fields a campaign reads.
pub open spec fn campaign_fields() -> Seq<(Seq<char>, bool)> {
    seq![
        ("id"@, false),
        ("goal"@, false),
        ("top"@, true),
        ("pitch"@, false),
        ("battlefront"@, false),
        ("tracking-link"@, false),
        ("release"@, false),
    ]
}

/// The fields a problem reads.
pub open spec fn problem_fields() -> Seq<(Seq<char>, bool)> {
    seq![("id"@, false), ("pitch"@, false), ("battlefront"@, false)]
}

/// The fields a team reads.
pub open spec fn team_fields() -> Seq<(Seq<char>, bool)> {
    seq![("id"@, false), ("name"@, false)]
}

/// The fields a release reads.
pub open spec fn release_fields() -> Seq<(Seq<char>, bool)> {
    seq![("id"@, false), ("future"@, true)]
}

/// The warnings from reading a plan's texts: none where a text is not YAML; else those of
/// the battlefronts, campaigns, problems, teams and releases in turn, up to the first data
/// file whose first document is not a list.
pub open spec fn plan_read_warnings(src: PlanSources) -> Seq<ReadWarningView> {
    match (
        yaml_load(src.battlefronts@),
        yaml_load(src.campaigns@),
        yaml_load(src.problems@),
        yaml_load(src.teams@),
        yaml_load(src.releases@),
    ) {
        (Ok(bd), Ok(cd), Ok(pd), Ok(td), Ok(rd)) => docs_warnings(
            "battlefront"@,
            bd,
            battlefront_fields(),
        ) + if lists_records(bd) {
            docs_warnings("campaign"@, cd, campaign_fields()) + if lists_records(cd) {
                docs_warnings("problem"@, pd, problem_fields()) + if lists_records(pd) {
                    docs_warnings("team"@, td, team_fields()) + if lists_records(td) {
                        docs_warnings("release"@, rd, release_fields())
                    } else {
                        seq![]
                    }
                } else {
                    seq![]
                }
            } else {
                seq![]
            }
        } else {
            seq![]
        },
        _ => seq![],
    }
}

/// The warnings that reading a plan from its texts gives, in the order the reading meets
/// them.
pub fn read_warnings(src: &PlanSources) -> (r: Vec<ReadWarning>)
    ensures
        read_warnings_view(r@) == plan_read_warnings(*src),
{
    let empty: Vec<ReadWarning> = Vec::new();
    assert(read_warnings_view(empty@) =~= Seq::<ReadWarningView>::empty());
    let bd = match yaml_from_str(src.battlefronts.as_str()) {
        Ok(d) => d,
        Err(_) => return empty,
    };
    let cd = match yaml_from_str(src.campaigns.as_str()) {
        Ok(d) => d,
        Err(_) => return empty,
    };
    let pd = match yaml_from_str(src.problems.as_str()) {
        Ok(d) => d,
        Err(_) => return empty,
    };
    let td = match yaml_from_str(src.teams.as_str()) {
        Ok(d) => d,
        Err(_) => return empty,
    };
    let rd = match yaml_from_str(src.releases.as_str()) {
        Ok(d) => d,
        Err(_) => return empty,
    };
    let bf = vec![("id", false), ("name", false), ("team", false), ("top", true), ("pitch", false)];
    let cf = vec![
        ("id", false),
        ("goal", false),
        ("top", true),
        ("pitch", false),
        ("battlefront", false),
        ("tracking-link", false),
        ("release", false),
    ];
    let pf = vec![("id", false), ("pitch", false), ("battlefront", false)];
    let tf = vec![("id", false), ("name", false)];
    let rf = vec![("id", false), ("future", true)];
    assert(field_specs(bf@) =~= battlefront_fields());
    assert(field_specs(cf@) =~= campaign_fields());
    assert(field_specs(pf@) =~= problem_fields());
    assert(field_specs(tf@) =~= team_fields());
    assert(field_specs(rf@) =~= release_fields());
    let (mut out, go) = read_docs_warnings("battlefront", bd, &bf);
    if !go {
        assert(read_warnings_view(out@) + Seq::<ReadWarningView>::empty() =~= read_warnings_view(out@));
        return out;
    }
    let ghost w1 = read_warnings_view(out@);
    let (mut w, go) = read_docs_warnings("campaign", cd, &cf);
    let ghost w2 = read_warnings_view(w@);
    let ghost o = out@;
    let ghost ws = w@;
    out.append(&mut w);
    proof { lemma_view_add(o, ws); }
    if !go {
        assert(w1 + (w2 + Seq::<ReadWarningView>::empty()) =~= read_warnings_view(out@));
        return out;
    }
    let (mut w, go) = read_docs_warnings("problem", pd, &pf);
    let ghost w3 = read_warnings_view(w@);
    let ghost o = out@;
    let ghost ws = w@;
    out.append(&mut w);
    proof { lemma_view_add(o, ws); }
    if !go {
        assert(w1 + (w2 + (w3 + Seq::<ReadWarningView>::empty())) =~= read_warnings_view(out@));
        return out;
    }
    let (mut w, go) = read_docs_warnings("team", td, &tf);
    let ghost w4 = read_warnings_view(w@);
    let ghost o = out@;
    let ghost ws = w@;
    out.append(&mut w);
    proof { lemma_view_add(o, ws); }
    if !go {
        assert(w1 + (w2 + (w3 + (w4 + Seq::<ReadWarningView>::empty()))) =~= read_warnings_view(
            out@,
        ));
        return out;
    }
    let (mut w, _) = read_docs_warnings("release", rd, &rf);
    let ghost w5 = read_warnings_view(w@);
    let ghost o = out@;
    let ghost ws = w@;
    out.append(&mut w);
    proof { lemma_view_add(o, ws); }
    assert(w1 + (w2 + (w3 + (w4 + w5))) =~= read_warnings_view(out@));
    out
}

/// Some warning of the list says that the item is skipped.
pub open spec fn warns_skip(ws: Seq<ReadWarningView>) -> bool {
    exists|i: int| 0 <= i < ws.len() && !(#[trigger] ws[i] is ExtraField)
}

/// A field cannot be read from a map: a string field that is missing or holds something
/// else, a boolean field that holds something else.
pub open spec fn field_fails(m: Seq<(YamlValue, YamlValue)>, f: (Seq<char>, bool)) -> bool {
    if f.1 {
        bool_field(m, f.0) is None
    } else {
        string_field(m, f.0) is None
    }
}

/// No two fields share a name.
pub open spec fn names_distinct(fs: Seq<(Seq<char>, bool)>) -> bool {
    forall|i: int, j: int| 0 <= i < j < fs.len() ==> (#[trigger] fs[i]).0 != (#[trigger] fs[j]).0
}

proof fn lemma_field_warnings_skip(
    kind: Seq<char>,
    index: usize,
    m0: Seq<(YamlValue, YamlValue)>,
    fs: Seq<(Seq<char>, bool)>,
    k: int,
    cur: Seq<(YamlValue, YamlValue)>,
    id: Seq<char>,
)
    requires
        0 <= k <= fs.len(),
        names_distinct(fs),
        forall|j: int| k <= j < fs.len() ==> field_value(cur, (#[trigger] fs[j]).0) == field_value(m0, fs[j].0),
    ensures
        warns_skip(field_warnings(kind, index, cur, fs, k, id)) <==> exists|j: int|
            k <= j < fs.len() && field_fails(m0, #[trigger] fs[j]),
    decreases fs.len() - k,
{
    let ws = field_warnings(kind, index, cur, fs, k, id);
    if k == fs.len() {
        assert(!warns_skip(ws));
    } else {
        let name = fs[k].0;
        assert(field_value(cur, fs[k].0) == field_value(m0, fs[k].0));
        if field_fails(m0, fs[k]) {
            assert(!(ws[0] is ExtraField));
        } else {
            let rest = without_field(cur, name);
            assert forall|j: int| k + 1 <= j < fs.len() implies field_value(rest, (#[trigger] fs[j]).0)
                == field_value(m0, fs[j].0) by {
                assert(fs[k].0 != fs[j].0);
                lemma_without_field(cur, name, fs[j].0);
            }
            let next_id = if !fs[k].1 && k == 0 {
                match field_value(cur, name) {
                    Some(YamlValue::Str(s)) => s@,
                    _ => id,
                }
            } else {
                id
            };
            lemma_field_warnings_skip(kind, index, m0, fs, k + 1, rest, next_id);
            assert(ws == field_warnings(kind, index, rest, fs, k + 1, next_id));
            if exists|j: int| k <= j < fs.len() && field_fails(m0, #[trigger] fs[j]) {
                let j = choose|j: int| k <= j < fs.len() && field_fails(m0, #[trigger] fs[j]);
                assert(j != k);
            }
        }
    }
}

proof fn lemma_item_skip(kind: Seq<char>, index: usize, item: YamlValue, fs: Seq<(Seq<char>, bool)>)
    requires
        names_distinct(fs),
    ensures
        match item {
            YamlValue::Hash(m) => warns_skip(item_warnings(kind, index, item, fs)) <==> exists|j: int|
                0 <= j < fs.len() && field_fails(m@, #[trigger] fs[j]),
            _ => warns_skip(item_warnings(kind, index, item, fs)),
        },
{
    match item {
        YamlValue::Hash(m) => {
            lemma_field_warnings_skip(kind, index, m@, fs, 0, m@, Seq::empty());
        },
        _ => {
            assert(!(item_warnings(kind, index, item, fs)[0] is ExtraField));
        },
    }
}

/// A battlefront item is skipped exactly when reading it warns that it is not a map or that
/// a field could not be read.
pub proof fn lemma_battlefront_skipped_iff_warned(index: usize, item: YamlValue)
    ensures
        battlefront_of(item) is None <==> warns_skip(
            item_warnings("battlefront"@, index, item, battlefront_fields()),
        ),
{
    let fs = battlefront_fields();
    reveal_strlit("id");
    reveal_strlit("name");
    reveal_strlit("team");
    reveal_strlit("top");
    reveal_strlit("pitch");
    assert("id"@.len() == 2 && "name"@.len() == 4 && "team"@.len() == 4 && "top"@.len() == 3
        && "pitch"@.len() == 5);
    assert("name"@[0] != "team"@[0]);
    assert(names_distinct(fs));
    lemma_item_skip("battlefront"@, index, item, fs);
    match item {
        YamlValue::Hash(m) => {
            if exists|j: int| 0 <= j < fs.len() && field_fails(m@, #[trigger] fs[j]) {
                let j = choose|j: int| 0 <= j < fs.len() && field_fails(m@, #[trigger] fs[j]);
                assert(j == 0 || j == 1 || j == 2 || j == 3 || j == 4);
            }
            if battlefront_of(item) is None {
                if string_field(m@, "id"@) is None {
                    assert(field_fails(m@, fs[0]));
                } else if string_field(m@, "name"@) is None {
                    assert(field_fails(m@, fs[1]));
                } else if string_field(m@, "team"@) is None {
                    assert(field_fails(m@, fs[2]));
                } else if bool_field(m@, "top"@) is None {
                    assert(field_fails(m@, fs[3]));
                } else {
                    assert(field_fails(m@, fs[4]));
                }
            }
        },
        _ => {},
    }
}

/// A campaign item is skipped exactly when reading it warns that it is not a map or that a
/// field could not be read.
pub proof fn lemma_campaign_skipped_iff_warned(index: usize, item: YamlValue)
    ensures
        campaign_of(item) is None <==> warns_skip(
            item_warnings("campaign"@, index, item, campaign_fields()),
        ),
{
    let fs = campaign_fields();
    reveal_strlit("id");
    reveal_strlit("goal");
    reveal_strlit("top");
    reveal_strlit("pitch");
    reveal_strlit("battlefront");
    reveal_strlit("tracking-link");
    reveal_strlit("release");
    assert("id"@.len() == 2 && "goal"@.len() == 4 && "top"@.len() == 3 && "pitch"@.len() == 5
        && "battlefront"@.len() == 11 && "tracking-link"@.len() == 13 && "release"@.len() == 7);
    assert(names_distinct(fs));
    lemma_item_skip("campaign"@, index, item, fs);
    match item {
        YamlValue::Hash(m) => {
            if exists|j: int| 0 <= j < fs.len() && field_fails(m@, #[trigger] fs[j]) {
                let j = choose|j: int| 0 <= j < fs.len() && field_fails(m@, #[trigger] fs[j]);
                assert(j == 0 || j == 1 || j == 2 || j == 3 || j == 4 || j == 5 || j == 6);
            }
            if campaign_of(item) is None {
                if string_field(m@, "id"@) is None {
                    assert(field_fails(m@, fs[0]));
                } else if string_field(m@, "goal"@) is None {
                    assert(field_fails(m@, fs[1]));
                } else if bool_field(m@, "top"@) is None {
                    assert(field_fails(m@, fs[2]));
                } else if string_field(m@, "pitch"@) is None {
                    assert(field_fails(m@, fs[3]));
                } else if string_field(m@, "battlefront"@) is None {
                    assert(field_fails(m@, fs[4]));
                } else if string_field(m@, "tracking-link"@) is None {
                    assert(field_fails(m@, fs[5]));
                } else {
                    assert(field_fails(m@, fs[6]));
                }
            }
        },
        _ => {},
    }
}

/// A problem item is skipped exactly when reading it warns that it is not a map or that a
/// field could not be read.
pub proof fn lemma_problem_skipped_iff_warned(index: usize, item: YamlValue)
    ensures
        problem_of(item) is None <==> warns_skip(
            item_warnings("problem"@, index, item, problem_fields()),
        ),
{
    let fs = problem_fields();
    reveal_strlit("id");
    reveal_strlit("pitch");
    reveal_strlit("battlefront");
    assert("id"@.len() == 2 && "pitch"@.len() == 5 && "battlefront"@.len() == 11);
    assert(names_distinct(fs));
    lemma_item_skip("problem"@, index, item, fs);
    match item {
        YamlValue::Hash(m) => {
            if exists|j: int| 0 <= j < fs.len() && field_fails(m@, #[trigger] fs[j]) {
                let j = choose|j: int| 0 <= j < fs.len() && field_fails(m@, #[trigger] fs[j]);
                assert(j == 0 || j == 1 || j == 2);
            }
            if problem_of(item) is None {
                if string_field(m@, "id"@) is None {
                    assert(field_fails(m@, fs[0]));
                } else if string_field(m@, "pitch"@) is None {
                    assert(field_fails(m@, fs[1]));
                } else {
                    assert(field_fails(m@, fs[2]));
                }
            }
        },
        _ => {},
    }
}

/// A team item is skipped exactly when reading it warns that it is not a map or that a
/// field could not be read.
pub proof fn lemma_team_skipped_iff_warned(index: usize, item: YamlValue)
    ensures
        team_of(item) is None <==> warns_skip(item_warnings("team"@, index, item, team_fields())),
{
    let fs = team_fields();
    reveal_strlit("id");
    reveal_strlit("name");
    assert("id"@.len() == 2 && "name"@.len() == 4);
    assert(names_distinct(fs));
    lemma_item_skip("team"@, index, item, fs);
    match item {
        YamlValue::Hash(m) => {
            if exists|j: int| 0 <= j < fs.len() && field_fails(m@, #[trigger] fs[j]) {
                let j = choose|j: int| 0 <= j < fs.len() && field_fails(m@, #[trigger] fs[j]);
                assert(j == 0 || j == 1);
            }
            if team_of(item) is None {
                if string_field(m@, "id"@) is None {
                    assert(field_fails(m@, fs[0]));
                } else {
                    assert(field_fails(m@, fs[1]));
                }
            }
        },
        _ => {},
    }
}

/// A release item is skipped exactly when reading it warns that it is not a map or that a
/// field could not be read.
pub proof fn lemma_release_skipped_iff_warned(index: usize, item: YamlValue)
    ensures
        release_of(item) is None <==> warns_skip(
            item_warnings("release"@, index, item, release_fields()),
        ),
{
    let fs = release_fields();
    reveal_strlit("id");
    reveal_strlit("future");
    assert("id"@.len() == 2 && "future"@.len() == 6);
    assert(names_distinct(fs));
    lemma_item_skip("release"@, index, item, fs);
    match item {
        YamlValue::Hash(m) => {
            if exists|j: int| 0 <= j < fs.len() && field_fails(m@, #[trigger] fs[j]) {
                let j = choose|j: int| 0 <= j < fs.len() && field_fails(m@, #[trigger] fs[j]);
                assert(j == 0 || j == 1);
            }
            if release_of(item) is None {
                if string_field(m@, "id"@) is None {
                    assert(field_fails(m@, fs[0]));
                } else {
                    assert(field_fails(m@, fs[1]));
                }
            }
        },
        _ => {},
    }
}

} // verus!
