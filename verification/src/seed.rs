//! Records that a database starts with.
use crate::error::{bad_data, Error, Failure};
use crate::fields::key_order;
use crate::paths::{join_path, path_joined};
use crate::text::{concat3, owned};
use crate::value::{group_value, json_fields, jsons, parse_json, parsed_json, Json, JsonValue};
use vstd::prelude::*;

verus! {

/// The file with the records, below the directory of the project.
pub fn seed_file_path(manifest_directory: &str) -> (r: String)
    ensures
        r@ == path_joined(
            path_joined(path_joined(manifest_directory@, "tests"@), "common"@),
            "test_seed.json"@,
        ),
{
    let tests = join_path(manifest_directory, "tests");
    let common = join_path(tests.as_str(), "common");
    join_path(common.as_str(), "test_seed.json")
}

/// What is written to seed a database: the records with their drawers, one after another, up to
/// the end or to a failure.
pub struct SeedPlan {
    pub records: Vec<(String, JsonValue)>,
    pub failure: Option<Error>,
}

/// The model of a plan.
#[verifier::ext_equal]
pub struct SeedModel {
    pub records: Seq<(Seq<char>, Json)>,
    pub failure: Option<Failure>,
}

pub open spec fn seed_records(records: Seq<(String, JsonValue)>) -> Seq<(Seq<char>, Json)> {
    records.map_values(|r: (String, JsonValue)| (r.0@, r.1@))
}

impl View for SeedPlan {
    type V = SeedModel;

    open spec fn view(&self) -> SeedModel {
        SeedModel {
            records: seed_records(self.records@),
            failure: match self.failure {
                Some(e) => Some(e@),
                None => None,
            },
        }
    }
}

/// The failure of a drawer without a list of records.
pub open spec fn no_list(drawer: Seq<char>) -> Failure {
    bad_data("Seed drawer '"@ + drawer + "' must contain an array of records"@)
}

/// What is written of the drawers from position `i` on, behind `done`.
pub open spec fn seeded_from(
    drawers: Map<Seq<char>, Json>,
    i: int,
    done: Seq<(Seq<char>, Json)>,
) -> SeedModel
    decreases key_order(drawers.dom()).len() - i,
{
    let names = key_order(drawers.dom());
    if i < 0 || i >= names.len() {
        SeedModel { records: done, failure: None }
    } else {
        match drawers[names[i]] {
            Json::Array(items) => seeded_from(
                drawers,
                i + 1,
                done + items.map_values(|record: Json| (names[i], record)),
            ),
            _ => SeedModel { records: done, failure: Some(no_list(names[i])) },
        }
    }
}

/// What is written of a seed, or why nothing is.
pub open spec fn seeded(seed: Json) -> Result<SeedModel, Failure> {
    match seed {
        Json::Object(drawers) => Ok(seeded_from(drawers, 0, Seq::empty())),
        _ => Err(
            bad_data("Seed file root must be a JSON object mapping drawer names to arrays"@),
        ),
    }
}

fn push_records(drawer: &str, items: &Vec<JsonValue>, out: &mut Vec<(String, JsonValue)>)
    ensures
        seed_records(final(out)@) == seed_records(old(out)@) + jsons(items@).map_values(
            |record: Json| (drawer@, record),
        ),
{
    let ghost start = seed_records(out@);
    let ghost wanted = jsons(items@).map_values(|record: Json| (drawer@, record));
    let mut i: usize = 0;
    assert(seed_records(out@) =~= start + wanted.take(0));
    while i < items.len()
        invariant
            i <= items.len(),
            wanted == jsons(items@).map_values(|record: Json| (drawer@, record)),
            seed_records(out@) == start + wanted.take(i as int),
        decreases items.len() - i,
    {
        let ghost before = seed_records(out@);
        let entry = (owned(drawer), items[i].clone());
        let ghost e = (entry.0@, entry.1@);
        out.push(entry);
        assert(jsons(items@)[i as int] == items@[i as int]@);
        assert(seed_records(out@) =~= before.push(e));
        assert(wanted.take(i + 1) =~= wanted.take(i as int).push(wanted[i as int]));
        i = i + 1;
    }
    assert(wanted.take(items.len() as int) =~= wanted);
}

/// What is written of a seed.
pub fn plan_seed(seed: &JsonValue) -> (r: Result<SeedPlan, Error>)
    ensures
        match (seeded(seed@), r) {
            (Ok(m), Ok(plan)) => plan@ == m,
            (Err(f), Err(e)) => e@ == f,
            _ => false,
        },
{
    broadcast use group_value;

    let drawers = match seed {
        JsonValue::Object(drawers) => drawers,
        _ => {
            return Err(
                Error::invalid_data(
                    owned("Seed file root must be a JSON object mapping drawer names to arrays"),
                ),
            );
        },
    };
    let ghost models = json_fields(*drawers);
    let ghost wanted = seeded_from(models, 0, Seq::empty());
    assert(models.dom() =~= drawers@.dom());
    let mut records: Vec<(String, JsonValue)> = Vec::new();
    assert(seed_records(records@) =~= Seq::empty());
    let n: usize = drawers.len();
    let mut i: usize = 0;
    while i < n
        invariant
            i <= n,
            models == json_fields(*drawers),
            models.dom() == drawers@.dom(),
            n == drawers.keys().len(),
            seed@ == Json::Object(models),
            wanted == seeded_from(models, 0, Seq::empty()),
            wanted == seeded_from(models, i as int, seed_records(records@)),
        decreases n - i,
    {
        let name = drawers.key_at(i).as_str();
        let value = drawers.value_at(i);
        assert(models[name@] == value@);
        match value {
            JsonValue::Array(items) => {
                proof {
                    crate::value::lemma_array_json(*items);
                }
                push_records(name, items, &mut records);
            },
            _ => {
                let failure = Error::invalid_data(
                    concat3("Seed drawer '", name, "' must contain an array of records"),
                );
                return Ok(SeedPlan { records, failure: Some(failure) });
            },
        }
        i = i + 1;
    }
    Ok(SeedPlan { records, failure: None })
}

/// What is written of a seed file.
pub fn seed_database(contents: &[u8]) -> (r: Result<SeedPlan, Error>)
    ensures
        match parsed_json(contents@) {
            Err(message) => r matches Err(e) && e@ == bad_data(message),
            Ok(seed) => match (seeded(seed), r) {
                (Ok(m), Ok(plan)) => plan@ == m,
                (Err(f), Err(e)) => e@ == f,
                _ => false,
            },
        },
{
    match parse_json(contents) {
        Ok(seed) => plan_seed(&seed),
        Err(message) => Err(Error::invalid_data(message)),
    }
}

} // verus!
