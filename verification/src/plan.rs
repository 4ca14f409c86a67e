//! The battle plan: battlefronts, campaigns, problems, teams and releases, read from the
//! YAML data files and checked for references that point at nothing.
use vstd::prelude::*;
use crate::errors::Error;
use crate::yaml::{
    YamlValue,
    yaml_load,
    yaml_from_str,
    root_yaml_to_vec,
    lookup_string,
    lookup_bool,
    key_index,
    is_key,
    is_first_key,
    field_value,
    string_field,
    bool_field,
    lemma_key_index,
};

verus! {

/// An area of work, owned by a team.
#[derive(Debug)]
pub struct Battlefront {
    pub id: String,
    pub name: String,
    pub team: String,
    pub top: bool,
    pub pitch: String,
}

/// A goal pursued on a battlefront, tracked by a link and aimed at a release.
#[derive(Debug)]
pub struct Campaign {
    pub id: String,
    pub goal: String,
    pub pitch: String,
    pub top: bool,
    pub battlefront: String,
    pub tracking_link: String,
    pub release: String,
}

/// A known problem on a battlefront.
#[derive(Debug)]
pub struct Problem {
    pub id: String,
    pub pitch: String,
    pub battlefront: String,
}

/// A team.
#[derive(Debug)]
pub struct Team {
    pub id: String,
    pub name: String,
}

/// A release, past or future.
#[derive(Debug)]
pub struct Release {
    pub id: String,
    pub future: bool,
}

/// The whole plan.
#[derive(Debug)]
pub struct Battleplan {
    pub battlefronts: Vec<Battlefront>,
    pub campaigns: Vec<Campaign>,
    pub problems: Vec<Problem>,
    pub teams: Vec<Team>,
    pub releases: Vec<Release>,
}

/// The texts of the five data files of a plan.
pub struct PlanSources {
    pub battlefronts: String,
    pub campaigns: String,
    pub problems: String,
    pub teams: String,
    pub releases: String,
}

// ---------------------------------------------------------------------------------------
// Reading records from YAML
// ---------------------------------------------------------------------------------------

/// The battlefront that a list item describes, or `None` where the item is skipped: it is
/// not a map, or a field is missing or of the wrong kind.
pub open spec fn battlefront_of(item: YamlValue) -> Option<Battlefront> {
    match item {
        YamlValue::Hash(m) => match (
            string_field(m@, "id"@),
            string_field(m@, "name"@),
            string_field(m@, "team"@),
            bool_field(m@, "top"@),
            string_field(m@, "pitch"@),
        ) {
            (Some(id), Some(name), Some(team), Some(top), Some(pitch)) => Some(
                Battlefront { id, name, team, top, pitch },
            ),
            _ => None,
        },
        _ => None,
    }
}

/// The campaign that a list item describes, or `None` where the item is skipped.
pub open spec fn campaign_of(item: YamlValue) -> Option<Campaign> {
    match item {
        YamlValue::Hash(m) => match (
            string_field(m@, "id"@),
            string_field(m@, "goal"@),
            bool_field(m@, "top"@),
            string_field(m@, "pitch"@),
            string_field(m@, "battlefront"@),
            string_field(m@, "tracking-link"@),
            string_field(m@, "release"@),
        ) {
            (
                Some(id),
                Some(goal),
                Some(top),
                Some(pitch),
                Some(battlefront),
                Some(tracking_link),
                Some(release),
            ) => Some(Campaign { id, goal, pitch, top, battlefront, tracking_link, release }),
            _ => None,
        },
        _ => None,
    }
}

/// The problem that a list item describes, or `None` where the item is skipped.
pub open spec fn problem_of(item: YamlValue) -> Option<Problem> {
    match item {
        YamlValue::Hash(m) => match (
            string_field(m@, "id"@),
            string_field(m@, "pitch"@),
            string_field(m@, "battlefront"@),
        ) {
            (Some(id), Some(pitch), Some(battlefront)) => Some(Problem { id, pitch, battlefront }),
            _ => None,
        },
        _ => None,
    }
}

/// The team that a list item describes, or `None` where the item is skipped.
pub open spec fn team_of(item: YamlValue) -> Option<Team> {
    match item {
        YamlValue::Hash(m) => match (string_field(m@, "id"@), string_field(m@, "name"@)) {
            (Some(id), Some(name)) => Some(Team { id, name }),
            _ => None,
        },
        _ => None,
    }
}

/// The release that a list item describes, or `None` where the item is skipped.
pub open spec fn release_of(item: YamlValue) -> Option<Release> {
    match item {
        YamlValue::Hash(m) => match (string_field(m@, "id"@), bool_field(m@, "future"@)) {
            (Some(id), Some(future)) => Some(Release { id, future }),
            _ => None,
        },
        _ => None,
    }
}

/// `battlefront_of`, as a function value.
pub open spec fn battlefront_reader() -> spec_fn(YamlValue) -> Option<Battlefront> {
    |y: YamlValue| battlefront_of(y)
}

/// `campaign_of`, as a function value.
pub open spec fn campaign_reader() -> spec_fn(YamlValue) -> Option<Campaign> {
    |y: YamlValue| campaign_of(y)
}

/// `problem_of`, as a function value.
pub open spec fn problem_reader() -> spec_fn(YamlValue) -> Option<Problem> {
    |y: YamlValue| problem_of(y)
}

/// `team_of`, as a function value.
pub open spec fn team_reader() -> spec_fn(YamlValue) -> Option<Team> {
    |y: YamlValue| team_of(y)
}

/// `release_of`, as a function value.
pub open spec fn release_reader() -> spec_fn(YamlValue) -> Option<Release> {
    |y: YamlValue| release_of(y)
}

/// Why a data file yields no records.
pub enum LoadFailure {
    /// The YAML reader rejected the text of the file, with this message.
    Scan(Seq<char>),
    /// The file holds no document; the kind of record it should list.
    NoElements(Seq<char>),
    /// Its first document is not a list; the kind of record it should list.
    NotAnArray(Seq<char>),
}

/// The records that the documents of a data file describe, items that describe none being
/// skipped.
pub open spec fn records_outcome<T>(
    docs: Seq<YamlValue>,
    kind: Seq<char>,
    read: spec_fn(YamlValue) -> Option<T>,
) -> Result<Seq<T>, LoadFailure> {
    if docs.len() == 0 {
        Err(LoadFailure::NoElements(kind))
    } else {
        match docs[0] {
            YamlValue::Array(a) => Ok(a@.filter_map(read)),
            _ => Err(LoadFailure::NotAnArray(kind)),
        }
    }
}

/// The error reported for a failure.
pub open spec fn reports(e: Error, f: LoadFailure) -> bool {
    match f {
        LoadFailure::Scan(m) => e matches Error::YamlScan(s) && s@ == m,
        LoadFailure::NoElements(k) => e matches Error::NoElements(t) && t@ == k,
        LoadFailure::NotAnArray(k) => e matches Error::NotAnArray(t) && t@ == k,
    }
}

/// A conversion ends as `records_outcome` says.
pub open spec fn records_result<T>(
    docs: Seq<YamlValue>,
    kind: Seq<char>,
    read: spec_fn(YamlValue) -> Option<T>,
    r: Result<Vec<T>, Error>,
) -> bool {
    match records_outcome(docs, kind, read) {
        Ok(recs) => r matches Ok(v) && v@ == recs,
        Err(f) => r matches Err(e) && reports(e, f),
    }
}

/// The map left after `lookup` takes the field `f` out of `m`.
pub open spec fn without_field(m: Seq<(YamlValue, YamlValue)>, f: Seq<char>) -> Seq<
    (YamlValue, YamlValue),
> {
    match key_index(m, f) {
        Some(i) => m.remove(i),
        None => m,
    }
}

/// Taking one field out of a map leaves every other field as it was.
pub proof fn lemma_without_field(m: Seq<(YamlValue, YamlValue)>, f1: Seq<char>, f2: Seq<char>)
    requires
        f1 != f2,
    ensures
        field_value(without_field(m, f1), f2) == field_value(m, f2),
{
    lemma_key_index(m, f1);
    lemma_key_index(m, f2);
    let m2 = without_field(m, f1);
    lemma_key_index(m2, f2);
    match key_index(m, f1) {
        Some(i) => {
            assert(m2 =~= m.remove(i));
            match key_index(m, f2) {
                Some(j) => {
                    if j < i {
                        assert forall|l: int| 0 <= l < j implies !is_key(#[trigger] m2[l].0, f2) by {
                            assert(m2[l] == m[l]);
                        }
                        assert(m2[j] == m[j]);
                        assert(is_first_key(m2, f2, j));
                    } else {
                        assert(j != i);
                        assert forall|l: int| 0 <= l < j - 1 implies !is_key(
                            #[trigger] m2[l].0,
                            f2,
                        ) by {
                            if l < i {
                                assert(m2[l] == m[l]);
                            } else {
                                assert(m2[l] == m[l + 1]);
                            }
                        }
                        assert(m2[j - 1] == m[j]);
                        assert(is_first_key(m2, f2, j - 1));
                    }
                },
                None => {
                    assert forall|l: int| 0 <= l < m2.len() implies !is_key(#[trigger] m2[l].0, f2) by {
                        if l < i {
                            assert(m2[l] == m[l]);
                            if is_key(m[l].0, f2) {
                                lemma_first_exists(m, f2, l);
                            }
                        } else {
                            assert(m2[l] == m[l + 1]);
                            if is_key(m[l + 1].0, f2) {
                                lemma_first_exists(m, f2, l + 1);
                            }
                        }
                    }
                },
            }
        },
        None => {},
    }
}

/// A key that occurs has a first occurrence.
pub proof fn lemma_first_exists(m: Seq<(YamlValue, YamlValue)>, f: Seq<char>, l: int)
    requires
        0 <= l < m.len(),
        is_key(m[l].0, f),
    ensures
        key_index(m, f) is Some,
    decreases l,
{
    lemma_key_index(m, f);
    if exists|w: int| 0 <= w < l && is_key(#[trigger] m[w].0, f) {
        let w = choose|w: int| 0 <= w < l && is_key(#[trigger] m[w].0, f);
        lemma_first_exists(m, f, w);
    } else {
        assert(is_first_key(m, f, l));
    }
}


/// The map left after `lookup` takes each of the fields `fs` out of `m`, in order.
pub open spec fn without_fields(m: Seq<(YamlValue, YamlValue)>, fs: Seq<Seq<char>>) -> Seq<
    (YamlValue, YamlValue),
>
    decreases fs.len(),
{
    if fs.len() == 0 {
        m
    } else {
        without_field(without_fields(m, fs.drop_last()), fs.last())
    }
}

/// Taking fields other than `g` out of a map leaves `g` as it was.
pub proof fn lemma_without_fields(m: Seq<(YamlValue, YamlValue)>, fs: Seq<Seq<char>>, g: Seq<char>)
    requires
        !fs.contains(g),
    ensures
        field_value(without_fields(m, fs), g) == field_value(m, g),
    decreases fs.len(),
{
    if fs.len() > 0 {
        assert(!fs.drop_last().contains(g)) by {
            if fs.drop_last().contains(g) {
                let k = choose|k: int| 0 <= k < fs.drop_last().len() && fs.drop_last()[k] == g;
                assert(fs[k] == g);
            }
        }
        lemma_without_fields(m, fs.drop_last(), g);
        assert(fs[fs.len() - 1] != g);
        lemma_without_field(without_fields(m, fs.drop_last()), fs.last(), g);
    }
}

proof fn lemma_fresh(fs: Seq<Seq<char>>, g: Seq<char>)
    requires
        forall|i: int| 0 <= i < fs.len() ==> fs[i] != g,
    ensures
        !fs.contains(g),
{
}

proof fn lemma_step(m: Seq<(YamlValue, YamlValue)>, fs: Seq<Seq<char>>, f: Seq<char>)
    ensures
        without_fields(m, fs.push(f)) == without_field(without_fields(m, fs), f),
{
    assert(fs.push(f).drop_last() =~= fs);
}

fn battlefront_from_item(item: YamlValue) -> (r: Option<Battlefront>)
    ensures
        r == battlefront_of(item),
{
    match item {
        YamlValue::Hash(m) => {
            let ghost m0 = m@;
            proof {
                reveal_strlit("id");
                reveal_strlit("name");
                reveal_strlit("team");
                reveal_strlit("top");
                reveal_strlit("pitch");
                lemma_step(m0, seq![], "id"@);
                lemma_step(m0, seq!["id"@], "name"@);
                lemma_step(m0, seq!["id"@, "name"@], "team"@);
                lemma_step(m0, seq!["id"@, "name"@, "team"@], "top"@);
                assert("id"@.len() == 2 && "name"@.len() == 4 && "team"@.len() == 4);
                assert("top"@.len() == 3 && "pitch"@.len() == 5);
                assert("name"@[0] == 'n' && "team"@[0] == 't');
                assert("id"@ != "name"@);
                assert("id"@ != "team"@ && "name"@ != "team"@);
                assert("id"@ != "top"@ && "name"@ != "top"@ && "team"@ != "top"@);
                assert("id"@ != "pitch"@ && "name"@ != "pitch"@ && "team"@ != "pitch"@
                    && "top"@ != "pitch"@);
                lemma_fresh(seq!["id"@], "name"@);
                lemma_fresh(seq!["id"@, "name"@], "team"@);
                lemma_fresh(seq!["id"@, "name"@, "team"@], "top"@);
                lemma_fresh(seq!["id"@, "name"@, "team"@, "top"@], "pitch"@);
                lemma_without_fields(m0, seq!["id"@], "name"@);
                lemma_without_fields(m0, seq!["id"@, "name"@], "team"@);
                lemma_without_fields(m0, seq!["id"@, "name"@, "team"@], "top"@);
                lemma_without_fields(m0, seq!["id"@, "name"@, "team"@, "top"@], "pitch"@);
                assert(seq!["id"@].push("name"@) =~= seq!["id"@, "name"@]);
                assert(seq!["id"@, "name"@].push("team"@) =~= seq!["id"@, "name"@, "team"@]);
                assert(seq!["id"@, "name"@, "team"@].push("top"@) =~= seq![
                    "id"@,
                    "name"@,
                    "team"@,
                    "top"@,
                ]);
                assert(seq![].push("id"@) =~= seq!["id"@]);
            }
            let mut map = m;
            let id = match lookup_string(&mut map, "id") {
                Ok(v) => v,
                Err(_) => return None,
            };
            let name = match lookup_string(&mut map, "name") {
                Ok(v) => v,
                Err(_) => return None,
            };
            let team = match lookup_string(&mut map, "team") {
                Ok(v) => v,
                Err(_) => return None,
            };
            let top = match lookup_bool(&mut map, "top") {
                Ok(v) => v,
                Err(_) => return None,
            };
            let pitch = match lookup_string(&mut map, "pitch") {
                Ok(v) => v,
                Err(_) => return None,
            };
            Some(Battlefront { id, name, team, top, pitch })
        },
        _ => None,
    }
}


/// The records that the items of a list describe, in order, items describing none being
/// skipped.
fn collect_records<T, F: Fn(YamlValue) -> Option<T>>(
    items: Vec<YamlValue>,
    read: F,
    Ghost(read_spec): Ghost<spec_fn(YamlValue) -> Option<T>>,
) -> (r: Vec<T>)
    requires
        forall|y: YamlValue| #[trigger] read.requires((y,)),
        forall|y: YamlValue, o: Option<T>| read.ensures((y,), o) ==> o == read_spec(y),
    ensures
        r@ == items@.filter_map(read_spec),
{
    let ghost all = items@;
    let mut items = items;
    let n = items.len();
    let mut res: Vec<T> = Vec::new();
    let mut i: usize = 0;
    assert(all.skip(0) =~= all);
    assert(all.take(0) =~= Seq::<YamlValue>::empty());
    while i < n
        invariant
            n == all.len(),
            i <= n,
            items@ == all.skip(i as int),
            res@ == all.take(i as int).filter_map(read_spec),
            forall|y: YamlValue| #[trigger] read.requires((y,)),
            forall|y: YamlValue, o: Option<T>| read.ensures((y,), o) ==> o == read_spec(y),
        decreases n - i,
    {
        let item = items.remove(0);
        assert(item == all[i as int]);
        assert(items@ =~= all.skip(i + 1));
        proof { all.lemma_filter_map_take_succ(read_spec, i as int); }
        match read(item) {
            Some(rec) => {
                res.push(rec);
            },
            None => {},
        }
        i = i + 1;
    }
    assert(all.take(n as int) =~= all);
    res
}

/// The records of a data file, read with `read`.
fn records_from_yaml<T, F: Fn(YamlValue) -> Option<T>>(
    y: Vec<YamlValue>,
    kind: &str,
    read: F,
    Ghost(read_spec): Ghost<spec_fn(YamlValue) -> Option<T>>,
) -> (r: Result<Vec<T>, Error>)
    requires
        forall|y: YamlValue| #[trigger] read.requires((y,)),
        forall|y: YamlValue, o: Option<T>| read.ensures((y,), o) ==> o == read_spec(y),
    ensures
        records_result(y@, kind@, read_spec, r),
{
    let items = root_yaml_to_vec(y, kind)?;
    Ok(collect_records(items, read, Ghost(read_spec)))
}

/// The battlefronts that a data file lists.
pub fn battlefronts_from_yaml(y: Vec<YamlValue>) -> (r: Result<Vec<Battlefront>, Error>)
    ensures
        records_result(y@, "battlefront"@, battlefront_reader(), r),
{
    records_from_yaml(y, "battlefront", battlefront_from_item, Ghost(battlefront_reader()))
}


fn campaign_from_item(item: YamlValue) -> (r: Option<Campaign>)
    ensures
        r == campaign_of(item),
{
    match item {
        YamlValue::Hash(m) => {
            let ghost m0 = m@;
            let ghost f0 = "id"@;
            let ghost f1 = "goal"@;
            let ghost f2 = "top"@;
            let ghost f3 = "pitch"@;
            let ghost f4 = "battlefront"@;
            let ghost f5 = "tracking-link"@;
            let ghost f6 = "release"@;
            proof {
                reveal_strlit("id");
                reveal_strlit("goal");
                reveal_strlit("top");
                reveal_strlit("pitch");
                reveal_strlit("battlefront");
                reveal_strlit("tracking-link");
                reveal_strlit("release");
                assert(f0.len() == 2 && f1.len() == 4 && f2.len() == 3 && f3.len() == 5);
                assert(f4.len() == 11 && f5.len() == 13 && f6.len() == 7);
                lemma_fresh(seq![f0], f1);
                lemma_fresh(seq![f0, f1], f2);
                lemma_fresh(seq![f0, f1, f2], f3);
                lemma_fresh(seq![f0, f1, f2, f3], f4);
                lemma_fresh(seq![f0, f1, f2, f3, f4], f5);
                lemma_fresh(seq![f0, f1, f2, f3, f4, f5], f6);
                lemma_step(m0, seq![], f0);
                lemma_step(m0, seq![f0], f1);
                lemma_step(m0, seq![f0, f1], f2);
                lemma_step(m0, seq![f0, f1, f2], f3);
                lemma_step(m0, seq![f0, f1, f2, f3], f4);
                lemma_step(m0, seq![f0, f1, f2, f3, f4], f5);
                lemma_without_fields(m0, seq![f0], f1);
                lemma_without_fields(m0, seq![f0, f1], f2);
                lemma_without_fields(m0, seq![f0, f1, f2], f3);
                lemma_without_fields(m0, seq![f0, f1, f2, f3], f4);
                lemma_without_fields(m0, seq![f0, f1, f2, f3, f4], f5);
                lemma_without_fields(m0, seq![f0, f1, f2, f3, f4, f5], f6);
                assert(seq![].push(f0) =~= seq![f0]);
                assert(seq![f0].push(f1) =~= seq![f0, f1]);
                assert(seq![f0, f1].push(f2) =~= seq![f0, f1, f2]);
                assert(seq![f0, f1, f2].push(f3) =~= seq![f0, f1, f2, f3]);
                assert(seq![f0, f1, f2, f3].push(f4) =~= seq![f0, f1, f2, f3, f4]);
                assert(seq![f0, f1, f2, f3, f4].push(f5) =~= seq![f0, f1, f2, f3, f4, f5]);
            }
            let mut map = m;
            let id = match lookup_string(&mut map, "id") {
                Ok(v) => v,
                Err(_) => return None,
            };
            let goal = match lookup_string(&mut map, "goal") {
                Ok(v) => v,
                Err(_) => return None,
            };
            let top = match lookup_bool(&mut map, "top") {
                Ok(v) => v,
                Err(_) => return None,
            };
            let pitch = match lookup_string(&mut map, "pitch") {
                Ok(v) => v,
                Err(_) => return None,
            };
            let battlefront = match lookup_string(&mut map, "battlefront") {
                Ok(v) => v,
                Err(_) => return None,
            };
            let tracking_link = match lookup_string(&mut map, "tracking-link") {
                Ok(v) => v,
                Err(_) => return None,
            };
            let release = match lookup_string(&mut map, "release") {
                Ok(v) => v,
                Err(_) => return None,
            };
            Some(Campaign { id, goal, pitch, top, battlefront, tracking_link, release })
        },
        _ => None,
    }
}

fn problem_from_item(item: YamlValue) -> (r: Option<Problem>)
    ensures
        r == problem_of(item),
{
    match item {
        YamlValue::Hash(m) => {
            let ghost m0 = m@;
            let ghost f0 = "id"@;
            let ghost f1 = "pitch"@;
            let ghost f2 = "battlefront"@;
            proof {
                reveal_strlit("id");
                reveal_strlit("pitch");
                reveal_strlit("battlefront");
                assert(f0.len() == 2 && f1.len() == 5 && f2.len() == 11);
                lemma_fresh(seq![f0], f1);
                lemma_fresh(seq![f0, f1], f2);
                lemma_step(m0, seq![], f0);
                lemma_step(m0, seq![f0], f1);
                lemma_without_fields(m0, seq![f0], f1);
                lemma_without_fields(m0, seq![f0, f1], f2);
                assert(seq![].push(f0) =~= seq![f0]);
                assert(seq![f0].push(f1) =~= seq![f0, f1]);
            }
            let mut map = m;
            let id = match lookup_string(&mut map, "id") {
                Ok(v) => v,
                Err(_) => return None,
            };
            let pitch = match lookup_string(&mut map, "pitch") {
                Ok(v) => v,
                Err(_) => return None,
            };
            let battlefront = match lookup_string(&mut map, "battlefront") {
                Ok(v) => v,
                Err(_) => return None,
            };
            Some(Problem { id, pitch, battlefront })
        },
        _ => None,
    }
}

fn team_from_item(item: YamlValue) -> (r: Option<Team>)
    ensures
        r == team_of(item),
{
    match item {
        YamlValue::Hash(m) => {
            let ghost m0 = m@;
            let ghost f0 = "id"@;
            let ghost f1 = "name"@;
            proof {
                reveal_strlit("id");
                reveal_strlit("name");
                assert(f0.len() == 2 && f1.len() == 4);
                lemma_fresh(seq![f0], f1);
                lemma_step(m0, seq![], f0);
                lemma_without_fields(m0, seq![f0], f1);
                assert(seq![].push(f0) =~= seq![f0]);
            }
            let mut map = m;
            let id = match lookup_string(&mut map, "id") {
                Ok(v) => v,
                Err(_) => return None,
            };
            let name = match lookup_string(&mut map, "name") {
                Ok(v) => v,
                Err(_) => return None,
            };
            Some(Team { id, name })
        },
        _ => None,
    }
}

fn release_from_item(item: YamlValue) -> (r: Option<Release>)
    ensures
        r == release_of(item),
{
    match item {
        YamlValue::Hash(m) => {
            let ghost m0 = m@;
            let ghost f0 = "id"@;
            let ghost f1 = "future"@;
            proof {
                reveal_strlit("id");
                reveal_strlit("future");
                assert(f0.len() == 2 && f1.len() == 6);
                lemma_fresh(seq![f0], f1);
                lemma_step(m0, seq![], f0);
                lemma_without_fields(m0, seq![f0], f1);
                assert(seq![].push(f0) =~= seq![f0]);
            }
            let mut map = m;
            let id = match lookup_string(&mut map, "id") {
                Ok(v) => v,
                Err(_) => return None,
            };
            let future = match lookup_bool(&mut map, "future") {
                Ok(v) => v,
                Err(_) => return None,
            };
            Some(Release { id, future })
        },
        _ => None,
    }
}

/// The campaigns that a data file lists.
pub fn campaigns_from_yaml(y: Vec<YamlValue>) -> (r: Result<Vec<Campaign>, Error>)
    ensures
        records_result(y@, "campaign"@, campaign_reader(), r),
{
    records_from_yaml(y, "campaign", campaign_from_item, Ghost(campaign_reader()))
}

/// The problems that a data file lists.
pub fn problems_from_yaml(y: Vec<YamlValue>) -> (r: Result<Vec<Problem>, Error>)
    ensures
        records_result(y@, "problem"@, problem_reader(), r),
{
    records_from_yaml(y, "problem", problem_from_item, Ghost(problem_reader()))
}

/// The teams that a data file lists.
pub fn teams_from_yaml(y: Vec<YamlValue>) -> (r: Result<Vec<Team>, Error>)
    ensures
        records_result(y@, "team"@, team_reader(), r),
{
    records_from_yaml(y, "team", team_from_item, Ghost(team_reader()))
}

/// The releases that a data file lists.
pub fn releases_from_yaml(y: Vec<YamlValue>) -> (r: Result<Vec<Release>, Error>)
    ensures
        records_result(y@, "release"@, release_reader(), r),
{
    records_from_yaml(y, "release", release_from_item, Ghost(release_reader()))
}


// ---------------------------------------------------------------------------------------
// Checking references
// ---------------------------------------------------------------------------------------

/// Some team has the id `id`.
pub open spec fn team_named(ts: Seq<Team>, id: Seq<char>) -> bool {
    exists|j: int| 0 <= j < ts.len() && (#[trigger] ts[j]).id@ == id
}

/// Some battlefront has the id `id`.
pub open spec fn battlefront_named(bs: Seq<Battlefront>, id: Seq<char>) -> bool {
    exists|j: int| 0 <= j < bs.len() && (#[trigger] bs[j]).id@ == id
}

/// Some release has the id `id`.
pub open spec fn release_named(rs: Seq<Release>, id: Seq<char>) -> bool {
    exists|j: int| 0 <= j < rs.len() && (#[trigger] rs[j]).id@ == id
}

/// Every team, battlefront and release that a record names exists.
pub open spec fn references_resolve(
    bs: Seq<Battlefront>,
    cs: Seq<Campaign>,
    ps: Seq<Problem>,
    ts: Seq<Team>,
    rs: Seq<Release>,
) -> bool {
    &&& forall|i: int| 0 <= i < bs.len() ==> team_named(ts, (#[trigger] bs[i]).team@)
    &&& forall|i: int|
        0 <= i < cs.len() ==> battlefront_named(bs, (#[trigger] cs[i]).battlefront@)
            && release_named(rs, cs[i].release@)
    &&& forall|i: int| 0 <= i < ps.len() ==> battlefront_named(bs, (#[trigger] ps[i]).battlefront@)
}

pub(crate) fn has_team(ts: &Vec<Team>, id: &String) -> (r: bool)
    ensures
        r == team_named(ts@, id@),
{
    let mut j: usize = 0;
    while j < ts.len()
        invariant
            j <= ts@.len(),
            forall|k: int| 0 <= k < j ==> (#[trigger] ts@[k]).id@ != id@,
        decreases ts@.len() - j,
    {
        if ts[j].id == *id {
            return true;
        }
        j = j + 1;
    }
    false
}

pub(crate) fn has_battlefront(bs: &Vec<Battlefront>, id: &String) -> (r: bool)
    ensures
        r == battlefront_named(bs@, id@),
{
    let mut j: usize = 0;
    while j < bs.len()
        invariant
            j <= bs@.len(),
            forall|k: int| 0 <= k < j ==> (#[trigger] bs@[k]).id@ != id@,
        decreases bs@.len() - j,
    {
        if bs[j].id == *id {
            return true;
        }
        j = j + 1;
    }
    false
}

pub(crate) fn has_release(rs: &Vec<Release>, id: &String) -> (r: bool)
    ensures
        r == release_named(rs@, id@),
{
    let mut j: usize = 0;
    while j < rs.len()
        invariant
            j <= rs@.len(),
            forall|k: int| 0 <= k < j ==> (#[trigger] rs@[k]).id@ != id@,
        decreases rs@.len() - j,
    {
        if rs[j].id == *id {
            return true;
        }
        j = j + 1;
    }
    false
}

impl Battleplan {
    /// Every team, battlefront and release that the plan's records name exists.
    pub open spec fn is_consistent(&self) -> bool {
        references_resolve(
            self.battlefronts@,
            self.campaigns@,
            self.problems@,
            self.teams@,
            self.releases@,
        )
    }

    /// Checks that every battlefront names a known team, every campaign a known battlefront
    /// and release, and every problem a known battlefront.
    pub fn validate(&self) -> (r: Result<(), Error>)
        ensures
            r is Ok <==> self.is_consistent(),
            r is Err ==> r matches Err(Error::InvalidBattleplan),
    {
        let mut good = true;
        let mut i: usize = 0;
        while i < self.battlefronts.len()
            invariant
                i <= self.battlefronts@.len(),
                good == forall|k: int|
                    0 <= k < i ==> team_named(self.teams@, (#[trigger] self.battlefronts@[k]).team@),
            decreases self.battlefronts@.len() - i,
        {
            if !has_team(&self.teams, &self.battlefronts[i].team) {
                good = false;
            }
            i = i + 1;
        }
        let good_battlefronts = good;
        good = true;
        let mut i: usize = 0;
        while i < self.campaigns.len()
            invariant
                i <= self.campaigns@.len(),
                good == forall|k: int|
                    0 <= k < i ==> battlefront_named(
                        self.battlefronts@,
                        (#[trigger] self.campaigns@[k]).battlefront@,
                    ) && release_named(self.releases@, self.campaigns@[k].release@),
            decreases self.campaigns@.len() - i,
        {
            if !has_battlefront(&self.battlefronts, &self.campaigns[i].battlefront) {
                good = false;
            }
            if !has_release(&self.releases, &self.campaigns[i].release) {
                good = false;
            }
            i = i + 1;
        }
        let good_campaigns = good;
        good = true;
        let mut i: usize = 0;
        while i < self.problems.len()
            invariant
                i <= self.problems@.len(),
                good == forall|k: int|
                    0 <= k < i ==> battlefront_named(
                        self.battlefronts@,
                        (#[trigger] self.problems@[k]).battlefront@,
                    ),
            decreases self.problems@.len() - i,
        {
            if !has_battlefront(&self.battlefronts, &self.problems[i].battlefront) {
                good = false;
            }
            i = i + 1;
        }
        if good_battlefronts && good_campaigns && good {
            Ok(())
        } else {
            Err(Error::InvalidBattleplan)
        }
    }
}

/// The ids of a list of teams.
pub open spec fn team_ids(ts: Seq<Team>) -> Set<Seq<char>> {
    Set::new(|id: Seq<char>| team_named(ts, id))
}

/// The ids of a list of battlefronts.
pub open spec fn battlefront_ids(bs: Seq<Battlefront>) -> Set<Seq<char>> {
    Set::new(|id: Seq<char>| battlefront_named(bs, id))
}

/// The ids of a list of releases.
pub open spec fn release_ids(rs: Seq<Release>) -> Set<Seq<char>> {
    Set::new(|id: Seq<char>| release_named(rs, id))
}

/// The teams that battlefronts name.
pub open spec fn named_teams(bs: Seq<Battlefront>) -> Set<Seq<char>> {
    Set::new(|t: Seq<char>| exists|i: int| 0 <= i < bs.len() && (#[trigger] bs[i]).team@ == t)
}

/// The battlefronts that campaigns name.
pub open spec fn campaign_battlefronts(cs: Seq<Campaign>) -> Set<Seq<char>> {
    Set::new(|b: Seq<char>| exists|i: int| 0 <= i < cs.len() && (#[trigger] cs[i]).battlefront@ == b)
}

/// The releases that campaigns name.
pub open spec fn campaign_releases(cs: Seq<Campaign>) -> Set<Seq<char>> {
    Set::new(|r: Seq<char>| exists|i: int| 0 <= i < cs.len() && (#[trigger] cs[i]).release@ == r)
}

/// The battlefronts that problems name.
pub open spec fn problem_battlefronts(ps: Seq<Problem>) -> Set<Seq<char>> {
    Set::new(|b: Seq<char>| exists|i: int| 0 <= i < ps.len() && (#[trigger] ps[i]).battlefront@ == b)
}

/// Two plans hold the same ids and name the same teams, battlefronts and releases.
pub open spec fn same_references(p: Battleplan, q: Battleplan) -> bool {
    &&& team_ids(p.teams@) == team_ids(q.teams@)
    &&& battlefront_ids(p.battlefronts@) == battlefront_ids(q.battlefronts@)
    &&& release_ids(p.releases@) == release_ids(q.releases@)
    &&& named_teams(p.battlefronts@) == named_teams(q.battlefronts@)
    &&& campaign_battlefronts(p.campaigns@) == campaign_battlefronts(q.campaigns@)
    &&& campaign_releases(p.campaigns@) == campaign_releases(q.campaigns@)
    &&& problem_battlefronts(p.problems@) == problem_battlefronts(q.problems@)
}

/// A plan is consistent exactly when every name its records hold is among the ids.
proof fn lemma_consistent_by_sets(p: Battleplan)
    ensures
        p.is_consistent() <==> (named_teams(p.battlefronts@).subset_of(team_ids(p.teams@))
            && campaign_battlefronts(p.campaigns@).subset_of(battlefront_ids(p.battlefronts@))
            && campaign_releases(p.campaigns@).subset_of(release_ids(p.releases@))
            && problem_battlefronts(p.problems@).subset_of(battlefront_ids(p.battlefronts@))),
{
    let bs = p.battlefronts@;
    let cs = p.campaigns@;
    let ps = p.problems@;
    let ts = p.teams@;
    let rs = p.releases@;
    if p.is_consistent() {
        assert forall|t: Seq<char>| named_teams(bs).contains(t) implies team_ids(ts).contains(t) by {
            let i = choose|i: int| 0 <= i < bs.len() && (#[trigger] bs[i]).team@ == t;
            assert(team_named(ts, bs[i].team@));
        }
        assert forall|b: Seq<char>| campaign_battlefronts(cs).contains(b) implies battlefront_ids(bs).contains(b) by {
            let i = choose|i: int| 0 <= i < cs.len() && (#[trigger] cs[i]).battlefront@ == b;
            assert(battlefront_named(bs, cs[i].battlefront@));
        }
        assert forall|r: Seq<char>| campaign_releases(cs).contains(r) implies release_ids(rs).contains(r) by {
            let i = choose|i: int| 0 <= i < cs.len() && (#[trigger] cs[i]).release@ == r;
            assert(release_named(rs, cs[i].release@));
        }
        assert forall|b: Seq<char>| problem_battlefronts(ps).contains(b) implies battlefront_ids(bs).contains(b) by {
            let i = choose|i: int| 0 <= i < ps.len() && (#[trigger] ps[i]).battlefront@ == b;
            assert(battlefront_named(bs, ps[i].battlefront@));
        }
    }
    if named_teams(bs).subset_of(team_ids(ts)) && campaign_battlefronts(cs).subset_of(
        battlefront_ids(bs),
    ) && campaign_releases(cs).subset_of(release_ids(rs)) && problem_battlefronts(ps).subset_of(
        battlefront_ids(bs),
    ) {
        assert forall|i: int| 0 <= i < bs.len() implies team_named(ts, (#[trigger] bs[i]).team@) by {
            assert(named_teams(bs).contains(bs[i].team@));
        }
        assert forall|i: int| 0 <= i < cs.len() implies battlefront_named(bs, (#[trigger] cs[i]).battlefront@)
            && release_named(rs, cs[i].release@) by {
            assert(campaign_battlefronts(cs).contains(cs[i].battlefront@));
            assert(campaign_releases(cs).contains(cs[i].release@));
        }
        assert forall|i: int| 0 <= i < ps.len() implies battlefront_named(bs, (#[trigger] ps[i]).battlefront@) by {
            assert(problem_battlefronts(ps).contains(ps[i].battlefront@));
        }
    }
}

/// Whether a plan checks out depends only on its ids and on the names its records hold:
/// reordering its lists, or changing names, pitches, goals, links or flags, changes nothing.
pub proof fn lemma_consistency_by_references(p: Battleplan, q: Battleplan)
    requires
        same_references(p, q),
    ensures
        p.is_consistent() == q.is_consistent(),
{
    lemma_consistent_by_sets(p);
    lemma_consistent_by_sets(q);
}

/// A battlefront read from a list item holds, in each field, what the item's map holds
/// under that field's key.
pub proof fn lemma_battlefront_fields_as_read(item: YamlValue)
    ensures
        battlefront_of(item) matches Some(b) ==> item matches YamlValue::Hash(m) && Some(b.id)
            == string_field(m@, "id"@) && Some(b.name) == string_field(m@, "name"@) && Some(b.team)
            == string_field(m@, "team"@) && Some(b.top) == bool_field(m@, "top"@) && Some(b.pitch)
            == string_field(m@, "pitch"@),
{
}

/// A campaign read from a list item holds, in each field, what the item's map holds under
/// that field's key: its goal under `goal`, its pitch under `pitch`, its link under
/// `tracking-link`, and so on.
pub proof fn lemma_campaign_fields_as_read(item: YamlValue)
    ensures
        campaign_of(item) matches Some(c) ==> item matches YamlValue::Hash(m) && Some(c.id)
            == string_field(m@, "id"@) && Some(c.goal) == string_field(m@, "goal"@) && Some(c.top)
            == bool_field(m@, "top"@) && Some(c.pitch) == string_field(m@, "pitch"@) && Some(
            c.battlefront,
        ) == string_field(m@, "battlefront"@) && Some(c.tracking_link) == string_field(
            m@,
            "tracking-link"@,
        ) && Some(c.release) == string_field(m@, "release"@),
{
}

/// A problem read from a list item holds, in each field, what the item's map holds under
/// that field's key.
pub proof fn lemma_problem_fields_as_read(item: YamlValue)
    ensures
        problem_of(item) matches Some(p) ==> item matches YamlValue::Hash(m) && Some(p.id)
            == string_field(m@, "id"@) && Some(p.pitch) == string_field(m@, "pitch"@) && Some(
            p.battlefront,
        ) == string_field(m@, "battlefront"@),
{
}

/// A team read from a list item holds, in each field, what the item's map holds under that
/// field's key.
pub proof fn lemma_team_fields_as_read(item: YamlValue)
    ensures
        team_of(item) matches Some(t) ==> item matches YamlValue::Hash(m) && Some(t.id)
            == string_field(m@, "id"@) && Some(t.name) == string_field(m@, "name"@),
{
}

/// A release read from a list item holds, in each field, what the item's map holds under
/// that field's key.
pub proof fn lemma_release_fields_as_read(item: YamlValue)
    ensures
        release_of(item) matches Some(r) ==> item matches YamlValue::Hash(m) && Some(r.id)
            == string_field(m@, "id"@) && Some(r.future) == bool_field(m@, "future"@),
{
}

/// An id is found in a list exactly when some entry of the list, at any position, has that
/// id: for teams, battlefronts and releases alike.
pub proof fn lemma_ids_found_wherever_listed(ts: Seq<Team>, bs: Seq<Battlefront>, rs: Seq<Release>)
    ensures
        forall|j: int| 0 <= j < ts.len() ==> team_named(ts, (#[trigger] ts[j]).id@),
        forall|id: Seq<char>|
            #[trigger] team_named(ts, id) ==> exists|j: int| 0 <= j < ts.len() && ts[j].id@ == id,
        forall|j: int| 0 <= j < bs.len() ==> battlefront_named(bs, (#[trigger] bs[j]).id@),
        forall|id: Seq<char>|
            #[trigger] battlefront_named(bs, id) ==> exists|j: int| 0 <= j < bs.len() && bs[j].id@ == id,
        forall|j: int| 0 <= j < rs.len() ==> release_named(rs, (#[trigger] rs[j]).id@),
        forall|id: Seq<char>|
            #[trigger] release_named(rs, id) ==> exists|j: int| 0 <= j < rs.len() && rs[j].id@ == id,
{
    assert forall|j: int| 0 <= j < ts.len() implies team_named(ts, (#[trigger] ts[j]).id@) by {}
    assert forall|j: int| 0 <= j < bs.len() implies battlefront_named(bs, (#[trigger] bs[j]).id@) by {}
    assert forall|j: int| 0 <= j < rs.len() implies release_named(rs, (#[trigger] rs[j]).id@) by {}
}

/// A plan whose every named team, battlefront and release is the id of an entry of the
/// matching list, at whatever position, checks out; and a plan that checks out has every
/// name so listed.
pub proof fn lemma_consistent_iff_names_listed(p: Battleplan)
    ensures
        p.is_consistent() <==> ({
            &&& forall|i: int|
                0 <= i < p.battlefronts@.len() ==> team_ids(p.teams@).contains(
                    (#[trigger] p.battlefronts@[i]).team@,
                )
            &&& forall|i: int|
                0 <= i < p.campaigns@.len() ==> battlefront_ids(p.battlefronts@).contains(
                    (#[trigger] p.campaigns@[i]).battlefront@,
                ) && release_ids(p.releases@).contains(p.campaigns@[i].release@)
            &&& forall|i: int|
                0 <= i < p.problems@.len() ==> battlefront_ids(p.battlefronts@).contains(
                    (#[trigger] p.problems@[i]).battlefront@,
                )
        }),
{
}

// ---------------------------------------------------------------------------------------
// Loading a plan
// ---------------------------------------------------------------------------------------

/// The five lists of records that a plan's texts describe, or why none is loaded: the
/// texts are read in the plan's order, then converted in the same order, and the first
/// failure is the one reported.
pub open spec fn load_plan_outcome(src: PlanSources) -> Result<
    (Seq<Battlefront>, Seq<Campaign>, Seq<Problem>, Seq<Team>, Seq<Release>),
    LoadFailure,
> {
    match (
        yaml_load(src.battlefronts@),
        yaml_load(src.campaigns@),
        yaml_load(src.problems@),
        yaml_load(src.teams@),
        yaml_load(src.releases@),
    ) {
        (Err(m), _, _, _, _) => Err(LoadFailure::Scan(m)),
        (Ok(_), Err(m), _, _, _) => Err(LoadFailure::Scan(m)),
        (Ok(_), Ok(_), Err(m), _, _) => Err(LoadFailure::Scan(m)),
        (Ok(_), Ok(_), Ok(_), Err(m), _) => Err(LoadFailure::Scan(m)),
        (Ok(_), Ok(_), Ok(_), Ok(_), Err(m)) => Err(LoadFailure::Scan(m)),
        (Ok(bd), Ok(cd), Ok(pd), Ok(td), Ok(rd)) => match (
            records_outcome(bd, "battlefront"@, battlefront_reader()),
            records_outcome(cd, "campaign"@, campaign_reader()),
            records_outcome(pd, "problem"@, problem_reader()),
            records_outcome(td, "team"@, team_reader()),
            records_outcome(rd, "release"@, release_reader()),
        ) {
            (Err(f), _, _, _, _) => Err(f),
            (Ok(_), Err(f), _, _, _) => Err(f),
            (Ok(_), Ok(_), Err(f), _, _) => Err(f),
            (Ok(_), Ok(_), Ok(_), Err(f), _) => Err(f),
            (Ok(_), Ok(_), Ok(_), Ok(_), Err(f)) => Err(f),
            (Ok(b), Ok(c), Ok(p), Ok(t), Ok(r)) => Ok((b, c, p, t, r)),
        },
    }
}

/// The plan the texts describe ends as `load_plan_outcome` says.
pub open spec fn loaded_as(src: PlanSources, r: Result<Battleplan, Error>) -> bool {
    match load_plan_outcome(src) {
        Ok((b, c, p, t, rs)) => r matches Ok(plan) && plan.battlefronts@ == b && plan.campaigns@
            == c && plan.problems@ == p && plan.teams@ == t && plan.releases@ == rs,
        Err(f) => r matches Err(e) && reports(e, f),
    }
}

/// The message of the first of the texts that the YAML reader rejects, if it rejects one.
pub open spec fn first_rejected(texts: Seq<Seq<char>>) -> Option<Seq<char>>
    decreases texts.len(),
{
    if texts.len() == 0 {
        None
    } else {
        match yaml_load(texts[0]) {
            Err(m) => Some(m),
            Ok(_) => first_rejected(texts.drop_first()),
        }
    }
}

/// The scan error of the first of the texts that the YAML reader rejects, in order: the
/// files that were read before one that could not be are read as YAML first, so a scan
/// error among them comes before the failure to read.
pub fn first_scan_error(texts: &Vec<String>) -> (r: Option<Error>)
    ensures
        match first_rejected(texts.deep_view()) {
            Some(m) => r matches Some(Error::YamlScan(e)) && e@ == m,
            None => r is None,
        },
{
    let ghost all = texts.deep_view();
    let mut i: usize = 0;
    assert(all.skip(0) =~= all);
    while i < texts.len()
        invariant
            all == texts.deep_view(),
            i <= all.len(),
            first_rejected(all) == first_rejected(all.skip(i as int)),
        decreases all.len() - i,
    {
        assert(all.skip(i as int)[0] == texts[i as int]@);
        assert(all.skip(i as int).drop_first() =~= all.skip(i + 1));
        match yaml_from_str(texts[i].as_str()) {
            Err(e) => {
                return Some(e);
            },
            Ok(_) => {},
        }
        i = i + 1;
    }
    None
}

/// Reads the plan from the texts of its five data files.
pub fn load_plan(src: &PlanSources) -> (r: Result<Battleplan, Error>)
    ensures
        loaded_as(*src, r),
{
    let battlefronts = yaml_from_str(src.battlefronts.as_str())?;
    let campaigns = yaml_from_str(src.campaigns.as_str())?;
    let problems = yaml_from_str(src.problems.as_str())?;
    let teams = yaml_from_str(src.teams.as_str())?;
    let releases = yaml_from_str(src.releases.as_str())?;

    let battlefronts = battlefronts_from_yaml(battlefronts)?;
    let campaigns = campaigns_from_yaml(campaigns)?;
    let problems = problems_from_yaml(problems)?;
    let teams = teams_from_yaml(teams)?;
    let releases = releases_from_yaml(releases)?;

    Ok(Battleplan { battlefronts, campaigns, problems, teams, releases })
}

/// Reads the plan from its texts and checks its references.
pub fn validate_plan(src: &PlanSources) -> (r: Result<(), Error>)
    ensures
        match load_plan_outcome(*src) {
            Ok((b, c, p, t, rs)) => (r is Ok <==> references_resolve(b, c, p, t, rs)) && (r is Err
                ==> r matches Err(Error::InvalidBattleplan)),
            Err(f) => r matches Err(e) && reports(e, f),
        },
{
    let plan = load_plan(src)?;
    plan.validate()
}

} // verus!
