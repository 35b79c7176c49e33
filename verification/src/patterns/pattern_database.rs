//! Pattern databases: values filed under pattern ids.

use std::collections::HashMap;
use vstd::prelude::*;
use vstd::std_specs::iter::IteratorSpec;
use crate::patterns::pattern_loader::{
    content, file_spec, first_failure, load_database, load_file, load_spec, loaded, LoadError,
};
use crate::patterns::{PatVal, PatternType};

verus! {

/// The model of a database: its name, its kind, and the values filed under
/// each pattern id.
pub struct DatabaseView {
    pub name: Seq<char>,
    pub pattern_type: PatternType,
    pub patterns: Map<u32, Seq<PatVal>>,
}

/// A named collection of pattern values of one kind.
pub struct PatternDatabase {
    patterns: HashMap<u32, Vec<PatVal>>,
    pattern_type: PatternType,
    name: String,
}

impl View for PatternDatabase {
    type V = DatabaseView;

    closed spec fn view(&self) -> DatabaseView {
        DatabaseView {
            name: self.name@,
            pattern_type: self.pattern_type,
            patterns: self.patterns@.map_values(|v: Vec<PatVal>| v@),
        }
    }
}

impl PatternDatabase {
    /// An empty database.
    pub fn new(name: &str, pattern_type: PatternType) -> (db: PatternDatabase)
        ensures
            db@ == (DatabaseView { name: name@, pattern_type, patterns: Map::empty() }),
            db@.patterns.dom().finite(),
    {
        let db = PatternDatabase { patterns: HashMap::new(), pattern_type, name: name.to_owned() };
        assert(db@.patterns =~= Map::empty());
        db
    }

    /// Reads a database from the content `data` of the file `path`.
    pub fn load_from_file(path: &str, data: &[u8], pattern_type: PatternType) -> (r: Result<
        PatternDatabase,
        LoadError,
    >)
        ensures
            loaded(r, load_spec(path@, data@, pattern_type)),
            r matches Ok(db) ==> db@.patterns.dom().finite(),
    {
        load_database(path, data, pattern_type)
    }

    /// A database holds values for finitely many pattern ids.
    pub proof fn lemma_finite(&self)
        ensures
            self@.patterns.dom().finite(),
    {
        broadcast use vstd::std_specs::hash::group_hash_axioms;

        assert(self@.patterns.dom() =~= self.patterns@.dom());
    }

    /// Files `values` under `pattern_id`, in place of what was filed there.
    pub fn add_pattern(&mut self, pattern_id: u32, values: Vec<PatVal>)
        ensures
            final(self)@ == (DatabaseView {
                patterns: old(self)@.patterns.insert(pattern_id, values@),
                ..old(self)@
            }),
            final(self)@.patterns.dom().finite(),
    {
        broadcast use vstd::std_specs::hash::group_hash_axioms;

        self.patterns.insert(pattern_id, values);
        proof {
            self.lemma_finite();
        }
        assert(self@.patterns =~= old(self)@.patterns.insert(pattern_id, values@));
    }

    /// Databases are not written out: nothing is written, and the
    /// call succeeds.
    pub fn save_to_file(&self, _path: &str) -> (r: Result<(), String>)
        ensures
            r is Ok,
    {
        Ok(())
    }

    /// The values filed under `pattern_id`, if any.
    pub fn get_pattern_values(&self, pattern_id: u32) -> (r: Option<&Vec<PatVal>>)
        ensures
            match r {
                Some(v) => self@.patterns.contains_key(pattern_id) && v@
                    == self@.patterns[pattern_id],
                None => !self@.patterns.contains_key(pattern_id),
            },
    {
        broadcast use vstd::std_specs::hash::group_hash_axioms;

        self.patterns.get(&pattern_id)
    }

    /// The number of pattern ids with values on file.
    pub fn get_pattern_count(&self) -> (n: usize)
        ensures
            n == self@.patterns.dom().len(),
            self@.patterns.dom().finite(),
    {
        broadcast use vstd::std_specs::hash::group_hash_axioms;

        proof {
            self.lemma_finite();
        }
        assert(self@.patterns.dom() =~= self.patterns@.dom());
        self.patterns.len()
    }

    /// The pattern ids with values on file, each once, in no particular
    /// order.
    pub fn pattern_ids(&self) -> (ids: Vec<u32>)
        ensures
            ids@.no_duplicates(),
            ids@.to_set() == self@.patterns.dom(),
    {
        broadcast use vstd::std_specs::hash::group_hash_axioms;

        let mut ids: Vec<u32> = Vec::new();
        let ghost all = vstd::std_specs::hash::spec_keys_iter(&self.patterns).remaining();
        for k in it: self.patterns.keys()
            invariant
                it.seq() == all,
                all == vstd::std_specs::hash::spec_keys_iter(&self.patterns).remaining(),
                ids@ == all.take(it.index() as int).unref(),
        {
            ids.push(*k);
            assert(ids@ =~= all.take(it.index() + 1).unref());
        }
        proof {
            assert(all.take(all.len() as int) =~= all);
            assert(self@.patterns.dom() =~= self.patterns@.dom());
            assert forall|i: int, j: int| 0 <= i < ids@.len() && 0 <= j < ids@.len() && i != j implies ids@[i]
                != ids@[j] by {
                assert(all[i] != all[j]);
            }
        }
        ids
    }

    /// The kind of patterns on file.
    pub fn get_pattern_type(&self) -> (t: PatternType)
        ensures
            t == self@.pattern_type,
    {
        self.pattern_type
    }

    /// The name of the database.
    pub fn get_name(&self) -> (r: &str)
        ensures
            r@ == self@.name,
    {
        self.name.as_str()
    }

    /// Everything on file.
    pub fn get_patterns(&self) -> (r: &HashMap<u32, Vec<PatVal>>)
        ensures
            r@.map_values(|v: Vec<PatVal>| v@) == self@.patterns,
    {
        &self.patterns
    }
}

/// The five databases the engine works with.
pub struct PatternDatabases {
    attack_db: PatternDatabase,
    defense_db: PatternDatabase,
    fuseki_db: PatternDatabase,
    joseki_db: PatternDatabase,
    endgame_db: PatternDatabase,
}

impl PatternDatabases {
    pub closed spec fn attack(&self) -> DatabaseView {
        self.attack_db@
    }

    pub closed spec fn defense(&self) -> DatabaseView {
        self.defense_db@
    }

    pub closed spec fn fuseki(&self) -> DatabaseView {
        self.fuseki_db@
    }

    pub closed spec fn joseki(&self) -> DatabaseView {
        self.joseki_db@
    }

    pub closed spec fn endgame(&self) -> DatabaseView {
        self.endgame_db@
    }

    /// Five empty databases, each named after its kind.
    pub fn new() -> (dbs: PatternDatabases)
        ensures
            dbs.attack() == (DatabaseView {
                name: "attack"@,
                pattern_type: PatternType::Attack,
                patterns: Map::empty(),
            }),
            dbs.defense() == (DatabaseView {
                name: "defense"@,
                pattern_type: PatternType::Defense,
                patterns: Map::empty(),
            }),
            dbs.fuseki() == (DatabaseView {
                name: "fuseki"@,
                pattern_type: PatternType::Fuseki,
                patterns: Map::empty(),
            }),
            dbs.joseki() == (DatabaseView {
                name: "joseki"@,
                pattern_type: PatternType::Joseki,
                patterns: Map::empty(),
            }),
            dbs.endgame() == (DatabaseView {
                name: "endgame"@,
                pattern_type: PatternType::Endgame,
                patterns: Map::empty(),
            }),
    {
        PatternDatabases {
            attack_db: PatternDatabase::new("attack", PatternType::Attack),
            defense_db: PatternDatabase::new("defense", PatternType::Defense),
            fuseki_db: PatternDatabase::new("fuseki", PatternType::Fuseki),
            joseki_db: PatternDatabase::new("joseki", PatternType::Joseki),
            endgame_db: PatternDatabase::new("endgame", PatternType::Endgame),
        }
    }

    /// Replaces the five databases, in turn, by what the standard files
    /// hold; each content is handed over by the caller, if it could read
    /// the file. The first file that cannot be read or does not hold a
    /// database stops the loading with its error; the databases before it
    /// stay replaced.
    pub fn load_all(
        &mut self,
        attack: Option<&[u8]>,
        defense: Option<&[u8]>,
        fuseki: Option<&[u8]>,
        joseki: Option<&[u8]>,
        endgame: Option<&[u8]>,
    ) -> (r: Result<(), LoadError>)
        ensures
            match first_failure(content(attack), content(defense), content(fuseki), content(joseki), content(endgame)) {
                Some(e) => r matches Err(f) && f == e,
                None => r is Ok,
            },
            final(self).attack() == match file_spec(
                "patterns/attack.db"@,
                content(attack),
                PatternType::Attack,
            ) {
                Ok(v) => v,
                Err(_) => old(self).attack(),
            },
            final(self).defense() == match (
                first_failure(content(attack), content(attack), content(attack), content(attack), content(attack)),
                file_spec("patterns/defense.db"@, content(defense), PatternType::Defense),
            ) {
                (None, Ok(v)) => v,
                _ => old(self).defense(),
            },
            final(self).fuseki() == match (
                first_failure(content(attack), content(defense), content(defense), content(defense), content(defense)),
                file_spec("patterns/fuseki.db"@, content(fuseki), PatternType::Fuseki),
            ) {
                (None, Ok(v)) => v,
                _ => old(self).fuseki(),
            },
            final(self).joseki() == match (
                first_failure(content(attack), content(defense), content(fuseki), content(fuseki), content(fuseki)),
                file_spec("patterns/joseki.db"@, content(joseki), PatternType::Joseki),
            ) {
                (None, Ok(v)) => v,
                _ => old(self).joseki(),
            },
            final(self).endgame() == match (
                first_failure(content(attack), content(defense), content(fuseki), content(joseki), content(joseki)),
                file_spec("patterns/endgame.db"@, content(endgame), PatternType::Endgame),
            ) {
                (None, Ok(v)) => v,
                _ => old(self).endgame(),
            },
    {
        match load_file("patterns/attack.db", attack, PatternType::Attack) {
            Ok(db) => {
                self.attack_db = db;
            },
            Err(e) => {
                return Err(e);
            },
        }
        match load_file("patterns/defense.db", defense, PatternType::Defense) {
            Ok(db) => {
                self.defense_db = db;
            },
            Err(e) => {
                return Err(e);
            },
        }
        match load_file("patterns/fuseki.db", fuseki, PatternType::Fuseki) {
            Ok(db) => {
                self.fuseki_db = db;
            },
            Err(e) => {
                return Err(e);
            },
        }
        match load_file("patterns/joseki.db", joseki, PatternType::Joseki) {
            Ok(db) => {
                self.joseki_db = db;
            },
            Err(e) => {
                return Err(e);
            },
        }
        match load_file("patterns/endgame.db", endgame, PatternType::Endgame) {
            Ok(db) => {
                self.endgame_db = db;
            },
            Err(e) => {
                return Err(e);
            },
        }
        Ok(())
    }

    pub fn get_attack_db(&self) -> (db: &PatternDatabase)
        ensures
            db@ == self.attack(),
    {
        &self.attack_db
    }

    pub fn get_defense_db(&self) -> (db: &PatternDatabase)
        ensures
            db@ == self.defense(),
    {
        &self.defense_db
    }

    pub fn get_fuseki_db(&self) -> (db: &PatternDatabase)
        ensures
            db@ == self.fuseki(),
    {
        &self.fuseki_db
    }

    pub fn get_joseki_db(&self) -> (db: &PatternDatabase)
        ensures
            db@ == self.joseki(),
    {
        &self.joseki_db
    }

    pub fn get_endgame_db(&self) -> (db: &PatternDatabase)
        ensures
            db@ == self.endgame(),
    {
        &self.endgame_db
    }
}

} // verus!
