//! The binary format of a pattern database.
//!
//! A database is a sequence of little-endian 32-bit words: the magic
//! number, a version, the number of patterns, and then for each pattern its
//! id, the number of its values, and the values, each a pattern id and a
//! signed value. Bytes after the last pattern are ignored.

use byteorder::{LittleEndian, ReadBytesExt};
use vstd::prelude::*;
use crate::patterns::pattern_database::{DatabaseView, PatternDatabase};
use crate::patterns::{PatVal, PatternType};

verus! {

/// The first word of every database.
pub const DATABASE_MAGIC: u32 = 0x474E5547;

/// Why a database could not be read.
#[derive(Debug, Clone, Copy, PartialEq, Eq, Structural)]
pub enum LoadError {
    /// The data ends inside a word or before the announced records.
    UnexpectedEof,
    /// The data does not start with the magic number.
    InvalidData,
    /// The file could not be read.
    Unreadable,
}

/// The number whose little-endian bytes are the first four of `b`.
pub open spec fn le_word(b: Seq<u8>) -> int {
    b[0] + b[1] * 0x100 + b[2] * 0x1_0000 + b[3] * 0x100_0000
}

/// The unsigned word at `pos`, if four bytes are there.
pub open spec fn u32_at(data: Seq<u8>, pos: int) -> Option<u32> {
    if 0 <= pos && pos + 4 <= data.len() {
        Some(le_word(data.subrange(pos, pos + 4)) as u32)
    } else {
        None
    }
}

/// The signed word at `pos`, in two's complement, if four bytes are there.
pub open spec fn i32_at(data: Seq<u8>, pos: int) -> Option<i32> {
    if 0 <= pos && pos + 4 <= data.len() {
        let w = le_word(data.subrange(pos, pos + 4));
        Some(
            if w < 0x8000_0000 {
                w as i32
            } else {
                (w - 0x1_0000_0000) as i32
            },
        )
    } else {
        None
    }
}

/// `byteorder::ReadBytesExt::read_u32::<LittleEndian>` on the bytes of
/// `data` from `pos` on: the word made of the next four bytes, lowest byte
/// first, or nothing when fewer than four bytes are left.
#[verifier::external_body]
fn read_u32_at(data: &[u8], pos: usize) -> (r: Option<u32>)
    requires
        pos <= data@.len(),
    ensures
        r == u32_at(data@, pos as int),
{
    let mut rest = &data[pos..];
    rest.read_u32::<LittleEndian>().ok()
}

/// `byteorder::ReadBytesExt::read_i32::<LittleEndian>` on the bytes of
/// `data` from `pos` on: the next four bytes, lowest byte first, read as a
/// two's complement number, or nothing when fewer than four bytes are
/// left.
#[verifier::external_body]
fn read_i32_at(data: &[u8], pos: usize) -> (r: Option<i32>)
    requires
        pos <= data@.len(),
    ensures
        r == i32_at(data@, pos as int),
{
    let mut rest = &data[pos..];
    rest.read_i32::<LittleEndian>().ok()
}

/// The `i`-th of the values stored from `pos` on.
pub open spec fn value_at(data: Seq<u8>, pos: int, i: int) -> PatVal {
    PatVal { pattern_id: u32_at(data, pos + 8 * i)->0, value: i32_at(data, pos + 8 * i + 4)->0 }
}

/// The `count` values stored from `pos` on.
pub open spec fn values_at(data: Seq<u8>, pos: int, count: nat) -> Seq<PatVal> {
    Seq::new(count, |i: int| value_at(data, pos, i))
}

/// The patterns read from `pos` on, `count` of them, filed into `acc`; a
/// later pattern replaces an earlier one with the same id.
pub open spec fn parse_patterns(
    data: Seq<u8>,
    pos: int,
    count: nat,
    acc: Map<u32, Seq<PatVal>>,
) -> Result<Map<u32, Seq<PatVal>>, LoadError>
    decreases count,
{
    if count == 0 {
        Ok(acc)
    } else {
        match (u32_at(data, pos), u32_at(data, pos + 4)) {
            (Some(id), Some(n)) => if pos + 8 + 8 * n <= data.len() {
                parse_patterns(
                    data,
                    pos + 8 + 8 * n,
                    (count - 1) as nat,
                    acc.insert(id, values_at(data, pos + 8, n as nat)),
                )
            } else {
                Err(LoadError::UnexpectedEof)
            },
            _ => Err(LoadError::UnexpectedEof),
        }
    }
}

/// The content of a database file.
pub open spec fn parse_database(data: Seq<u8>) -> Result<Map<u32, Seq<PatVal>>, LoadError> {
    match u32_at(data, 0) {
        None => Err(LoadError::UnexpectedEof),
        Some(magic) => if magic != DATABASE_MAGIC {
            Err(LoadError::InvalidData)
        } else {
            match (u32_at(data, 4), u32_at(data, 8)) {
                (Some(_), Some(count)) => parse_patterns(data, 12, count as nat, Map::empty()),
                _ => Err(LoadError::UnexpectedEof),
            }
        },
    }
}

/// What loading `data` under the name `path` gives.
pub open spec fn load_spec(path: Seq<char>, data: Seq<u8>, pattern_type: PatternType) -> Result<
    DatabaseView,
    LoadError,
> {
    match parse_database(data) {
        Ok(patterns) => Ok(DatabaseView { name: path, pattern_type, patterns }),
        Err(e) => Err(e),
    }
}

/// The result of a load is the database that `expected` describes, or its
/// error.
pub open spec fn loaded(
    r: Result<PatternDatabase, LoadError>,
    expected: Result<DatabaseView, LoadError>,
) -> bool {
    match expected {
        Ok(view) => r matches Ok(db) && db@ == view,
        Err(e) => r matches Err(f) && f == e,
    }
}

/// Reads a database from the content `data` of the file `path`.
pub fn load_database(path: &str, data: &[u8], pattern_type: PatternType) -> (r: Result<
    PatternDatabase,
    LoadError,
>)
    ensures
        loaded(r, load_spec(path@, data@, pattern_type)),
        r matches Ok(db) ==> db@.patterns.dom().finite(),
{
    let mut db = PatternDatabase::new(path, pattern_type);
    let len = data.len();
    let magic = match read_u32_at(data, 0) {
        Some(m) => m,
        None => {
            return Err(LoadError::UnexpectedEof);
        },
    };
    if magic != DATABASE_MAGIC {
        return Err(LoadError::InvalidData);
    }
    let _version = match read_u32_at(data, 4) {
        Some(v) => v,
        None => {
            return Err(LoadError::UnexpectedEof);
        },
    };
    let pattern_count = match read_u32_at(data, 8) {
        Some(c) => c,
        None => {
            return Err(LoadError::UnexpectedEof);
        },
    };
    let mut pos: usize = 12;
    let mut done: u32 = 0;
    while done < pattern_count
        invariant
            done <= pattern_count,
            len == data@.len(),
            12 <= pos <= len,
            db@.name == path@,
            db@.pattern_type == pattern_type,
            parse_database(data@) == parse_patterns(
                data@,
                pos as int,
                (pattern_count - done) as nat,
                db@.patterns,
            ),
        decreases pattern_count - done,
    {
        let pattern_id = match read_u32_at(data, pos) {
            Some(v) => v,
            None => {
                return Err(LoadError::UnexpectedEof);
            },
        };
        let value_count = match read_u32_at(data, pos + 4) {
            Some(v) => v,
            None => {
                return Err(LoadError::UnexpectedEof);
            },
        };
        let ghost start = pos as int + 8;
        let mut values: Vec<PatVal> = Vec::new();
        let mut at: usize = pos + 8;
        let mut read: u32 = 0;
        while read < value_count
            invariant
                read <= value_count,
                done < pattern_count,
                len == data@.len(),
                start == pos + 8,
                at == start + 8 * read,
                at <= len,
                values@ == values_at(data@, start, read as nat),
                u32_at(data@, pos as int) == Some(pattern_id),
                u32_at(data@, pos + 4) == Some(value_count),
                parse_database(data@) == parse_patterns(
                    data@,
                    pos as int,
                    (pattern_count - done) as nat,
                    db@.patterns,
                ),
            decreases value_count - read,
        {
            let val_pattern_id = match read_u32_at(data, at) {
                Some(v) => v,
                None => {
                    return Err(LoadError::UnexpectedEof);
                },
            };
            let val_value = match read_i32_at(data, at + 4) {
                Some(v) => v,
                None => {
                    return Err(LoadError::UnexpectedEof);
                },
            };
            values.push(PatVal::new(val_pattern_id, val_value));
            proof {
                assert(values@ =~= values_at(data@, start, read as nat + 1));
            }
            at += 8;
            read += 1;
        }
        db.add_pattern(pattern_id, values);
        pos = at;
        done += 1;
    }
    proof {
        db.lemma_finite();
    }
    Ok(db)
}

/// Reads the five standard databases from their files in turn; each
/// content is handed over by the caller, if it could read the file.
pub fn load_all_databases(
    attack: Option<&[u8]>,
    defense: Option<&[u8]>,
    fuseki: Option<&[u8]>,
    joseki: Option<&[u8]>,
    endgame: Option<&[u8]>,
) -> (r: Result<
    (PatternDatabase, PatternDatabase, PatternDatabase, PatternDatabase, PatternDatabase),
    LoadError,
>)
    ensures
        match first_failure(content(attack), content(defense), content(fuseki), content(joseki), content(endgame)) {
            Some(e) => r matches Err(f) && f == e,
            None => r matches Ok(dbs) && Ok::<DatabaseView, LoadError>(dbs.0@) == file_spec(
                "patterns/attack.db"@,
                content(attack),
                PatternType::Attack,
            ) && Ok::<DatabaseView, LoadError>(dbs.1@) == file_spec(
                "patterns/defense.db"@,
                content(defense),
                PatternType::Defense,
            ) && Ok::<DatabaseView, LoadError>(dbs.2@) == file_spec(
                "patterns/fuseki.db"@,
                content(fuseki),
                PatternType::Fuseki,
            ) && Ok::<DatabaseView, LoadError>(dbs.3@) == file_spec(
                "patterns/joseki.db"@,
                content(joseki),
                PatternType::Joseki,
            ) && Ok::<DatabaseView, LoadError>(dbs.4@) == file_spec(
                "patterns/endgame.db"@,
                content(endgame),
                PatternType::Endgame,
            ),
        },
{
    let attack_db = match load_file("patterns/attack.db", attack, PatternType::Attack) {
        Ok(db) => db,
        Err(e) => {
            return Err(e);
        },
    };
    let defense_db = match load_file("patterns/defense.db", defense, PatternType::Defense) {
        Ok(db) => db,
        Err(e) => {
            return Err(e);
        },
    };
    let fuseki_db = match load_file("patterns/fuseki.db", fuseki, PatternType::Fuseki) {
        Ok(db) => db,
        Err(e) => {
            return Err(e);
        },
    };
    let joseki_db = match load_file("patterns/joseki.db", joseki, PatternType::Joseki) {
        Ok(db) => db,
        Err(e) => {
            return Err(e);
        },
    };
    let endgame_db = match load_file("patterns/endgame.db", endgame, PatternType::Endgame) {
        Ok(db) => db,
        Err(e) => {
            return Err(e);
        },
    };
    Ok((attack_db, defense_db, fuseki_db, joseki_db, endgame_db))
}

/// The content of a file as the caller hands it over: nothing for a file
/// that could not be read.
pub open spec fn content(file: Option<&[u8]>) -> Option<Seq<u8>> {
    match file {
        Some(data) => Some(data@),
        None => None,
    }
}

/// What a file holds: what its content holds, or the error that it could
/// not be read.
pub open spec fn parse_file(file: Option<Seq<u8>>) -> Result<Map<u32, Seq<PatVal>>, LoadError> {
    match file {
        Some(data) => parse_database(data),
        None => Err(LoadError::Unreadable),
    }
}

/// What loading the file `path` gives.
pub open spec fn file_spec(path: Seq<char>, file: Option<Seq<u8>>, pattern_type: PatternType) -> Result<
    DatabaseView,
    LoadError,
> {
    match parse_file(file) {
        Ok(patterns) => Ok(DatabaseView { name: path, pattern_type, patterns }),
        Err(e) => Err(e),
    }
}

/// Reads a database from the file `path`, whose content the caller hands
/// over if it could read the file.
pub fn load_file(path: &str, file: Option<&[u8]>, pattern_type: PatternType) -> (r: Result<
    PatternDatabase,
    LoadError,
>)
    ensures
        loaded(r, file_spec(path@, content(file), pattern_type)),
{
    match file {
        Some(data) => load_database(path, data, pattern_type),
        None => Err(LoadError::Unreadable),
    }
}

/// The error of the first of five files that cannot be read or does not
/// hold a database, if there is one.
pub open spec fn first_failure(
    attack: Option<Seq<u8>>,
    defense: Option<Seq<u8>>,
    fuseki: Option<Seq<u8>>,
    joseki: Option<Seq<u8>>,
    endgame: Option<Seq<u8>>,
) -> Option<LoadError> {
    if let Err(e) = parse_file(attack) {
        Some(e)
    } else if let Err(e) = parse_file(defense) {
        Some(e)
    } else if let Err(e) = parse_file(fuseki) {
        Some(e)
    } else if let Err(e) = parse_file(joseki) {
        Some(e)
    } else if let Err(e) = parse_file(endgame) {
        Some(e)
    } else {
        None
    }
}

} // verus!
