//! The manifest of schema migrations and the decisions that bring a database to the current
//! schema.
use crate::error::AppError;
use crate::text::{decimal, push_decimal, str_eq};
use sha2::{Digest, Sha256};
use vstd::prelude::*;

verus! {

/// The schema version this program writes.
pub const CURRENT_SCHEMA_VERSION: u32 = 4;

/// The last schema version that predates the migration history.
pub const LEGACY_BASELINE_VERSION: u32 = 3;

/// What SHA-256 gives for a byte sequence: its 32-byte digest.
pub uninterp spec fn sha256(data: Seq<u8>) -> Seq<u8>;

/// The SHA-256 digest of `data`, by `sha2::Sha256::digest`: it depends on the bytes alone and
/// has 32 bytes.
#[verifier::external_body]
fn sha256_digest(data: &[u8]) -> (d: Vec<u8>)
    ensures
        d@ == sha256(data@),
        d@.len() == 32,
{
    Sha256::digest(data).to_vec()
}

/// The lower-case hexadecimal digit of a value below 16.
pub open spec fn hex_digit(n: u8) -> char {
    if n < 10 {
        (('0' as u8) + n) as char
    } else {
        (('a' as u8) + n - 10) as char
    }
}

/// Two lower-case hexadecimal digits for each byte, high digit first.
pub open spec fn hex_spec(bytes: Seq<u8>) -> Seq<char>
    decreases bytes.len(),
{
    if bytes.len() == 0 {
        Seq::empty()
    } else {
        hex_spec(bytes.drop_last()) + seq![hex_digit(bytes.last() / 16), hex_digit(bytes.last() % 16)]
    }
}

/// The hexadecimal text of `bytes`, by `hex::encode`, which writes two lower-case digits per
/// byte, high nibble first.
#[verifier::external_body]
fn hex_encode(bytes: &[u8]) -> (s: String)
    ensures
        s@ == hex_spec(bytes@),
{
    hex::encode(bytes)
}

/// The checksum of a migration's bytes: the hexadecimal SHA-256 digest.
pub open spec fn checksum_spec(sql: Seq<u8>) -> Seq<char> {
    hex_spec(sha256(sql))
}

/// The checksum of a migration's bytes, taken over the bytes exactly as they are.
pub fn migration_checksum(sql: &[u8]) -> (s: String)
    ensures
        s@ == checksum_spec(sql@),
{
    let digest = sha256_digest(sql);
    hex_encode(digest.as_slice())
}

/// A migration shipped with the program.
#[derive(Debug, Clone, PartialEq, Eq)]
pub struct EmbeddedMigration {
    pub version: u32,
    pub name: String,
    pub sql: Vec<u8>,
    pub checksum: String,
}

/// The index of the first `'_'` of `s`, or its length when it has none.
pub open spec fn first_underscore(s: Seq<char>) -> int
    decreases s.len(),
{
    if s.len() == 0 {
        0
    } else {
        let p = first_underscore(s.drop_last());
        if p < s.len() - 1 {
            p
        } else if s.last() == '_' {
            s.len() - 1
        } else {
            s.len() as int
        }
    }
}

/// An ASCII digit.
pub open spec fn is_digit(c: char) -> bool {
    '0' <= c && c <= '9'
}

/// A character allowed in a migration name: a lower-case ASCII letter, a digit or `'_'`.
pub open spec fn is_name_char(c: char) -> bool {
    ('a' <= c && c <= 'z') || is_digit(c) || c == '_'
}

/// The value of a digit.
pub open spec fn digit_value(c: char) -> int {
    (c as int) - ('0' as int)
}

/// The value of a four-digit version.
pub open spec fn version_value(v: Seq<char>) -> int {
    digit_value(v[0]) * 1000 + digit_value(v[1]) * 100 + digit_value(v[2]) * 10 + digit_value(v[3])
}

/// A migration file name: `NNNN_name.sql` with four digits and a name of lower-case letters,
/// digits and underscores; otherwise the reason it is refused.
pub open spec fn parse_name_spec(file_name: Seq<char>) -> Result<(u32, Seq<char>), Seq<char>> {
    let n = file_name.len();
    if !(n >= 4 && file_name.subrange(n - 4, n as int) == ".sql"@) {
        Err("迁移文件扩展名无效："@ + file_name)
    } else {
        let stem = file_name.subrange(0, n - 4);
        let u = first_underscore(stem);
        if u >= stem.len() {
            Err("迁移文件名格式无效："@ + file_name)
        } else {
            let version = stem.subrange(0, u);
            let name = stem.subrange(u + 1, stem.len() as int);
            if !(version.len() == 4 && forall|k: int| 0 <= k < 4 ==> is_digit(#[trigger] version[k])) {
                Err("迁移版本格式无效："@ + file_name)
            } else if !(name.len() > 0 && forall|k: int|
                0 <= k < name.len() ==> is_name_char(#[trigger] name[k])) {
                Err("迁移名称格式无效："@ + file_name)
            } else {
                Ok((version_value(version) as u32, name))
            }
        }
    }
}

fn chars_equal_at(chars: &Vec<char>, at: usize, lit: &str) -> (r: bool)
    requires
        at + lit@.len() <= chars@.len(),
    ensures
        r == (chars@.subrange(at as int, at + lit@.len()) == lit@),
{
    let l = crate::text::chars_of(lit);
    let total = chars.len();
    let mut k: usize = 0;
    while k < l.len()
        invariant
            k <= l.len(),
            total == chars@.len(),
            l@ == lit@,
            at + lit@.len() <= chars@.len(),
            forall|j: int| 0 <= j < k ==> chars@[at + j] == l@[j],
        decreases l.len() - k,
    {
        if chars[at + k] != l[k] {
            assert(chars@.subrange(at as int, at + lit@.len())[k as int] != lit@[k as int]);
            return false;
        }
        k += 1;
    }
    assert(chars@.subrange(at as int, at + lit@.len()) =~= lit@);
    true
}

fn schema_error(prefix: &str, file_name: &str) -> (e: AppError)
    ensures
        e matches AppError::SchemaIncompatible(m) && m@ == prefix@ + file_name@,
{
    let mut m = String::from_str(prefix);
    m.append(file_name);
    AppError::SchemaIncompatible(m)
}

proof fn lemma_first_underscore(s: Seq<char>)
    ensures
        0 <= first_underscore(s) <= s.len(),
        first_underscore(s) < s.len() ==> s[first_underscore(s)] == '_',
        forall|k: int| 0 <= k < first_underscore(s) ==> s[k] != '_',
    decreases s.len(),
{
    if s.len() > 0 {
        lemma_first_underscore(s.drop_last());
        assert forall|k: int| 0 <= k < s.len() - 1 implies s.drop_last()[k] == s[k] by {}
    }
}

/// The version and name of a migration file, or why its name is refused.
pub fn parse_migration_file_name(file_name: &str) -> (r: Result<(u32, String), AppError>)
    ensures
        match parse_name_spec(file_name@) {
            Ok((v, n)) => r matches Ok((rv, rn)) && rv == v && rn@ == n,
            Err(m) => r matches Err(AppError::SchemaIncompatible(e)) && e@ == m,
        },
{
    let chars = crate::text::chars_of(file_name);
    let n = chars.len();
    proof {
        reveal_strlit(".sql");
    }
    if !(n >= 4 && chars_equal_at(&chars, n - 4, ".sql")) {
        return Err(schema_error("迁移文件扩展名无效：", file_name));
    }
    let stem_len = n - 4;
    let ghost stem = chars@.subrange(0, stem_len as int);
    let mut u: usize = 0;
    while u < stem_len && chars[u] != '_'
        invariant
            u <= stem_len < n,
            n == chars@.len(),
            stem == chars@.subrange(0, stem_len as int),
            forall|k: int| 0 <= k < u ==> chars@[k] != '_',
        decreases stem_len - u,
    {
        u += 1;
    }
    proof {
        lemma_first_underscore(stem);
        assert(first_underscore(stem) == u) by {
            let f = first_underscore(stem);
            if f < u {
                assert(stem[f] == chars@[f]);
            } else if f > u {
                assert(stem[u as int] == chars@[u as int]);
            }
        }
    }
    if u >= stem_len {
        return Err(schema_error("迁移文件名格式无效：", file_name));
    }
    let ghost version = stem.subrange(0, u as int);
    let ghost name = stem.subrange(u + 1, stem_len as int);
    let mut digits_ok = u == 4;
    if digits_ok {
        let mut k: usize = 0;
        while k < 4
            invariant
                u == 4,
                4 < stem_len < n == chars@.len(),
                k <= 4,
                version == chars@.subrange(0, 4),
                digits_ok == forall|j: int| 0 <= j < k ==> is_digit(#[trigger] version[j]),
            decreases 4 - k,
        {
            let c = chars[k];
            assert(version[k as int] == c);
            if !('0' <= c && c <= '9') {
                digits_ok = false;
            }
            k += 1;
        }
    }
    assert(digits_ok == (version.len() == 4 && forall|k: int|
        0 <= k < 4 ==> is_digit(#[trigger] version[k])));
    if !digits_ok {
        return Err(schema_error("迁移版本格式无效：", file_name));
    }
    let mut name_ok = u + 1 < stem_len;
    let mut k: usize = u + 1;
    while k < stem_len
        invariant
            u + 1 <= k <= stem_len < n == chars@.len(),
            name == chars@.subrange(u + 1, stem_len as int),
            name_ok == (name.len() > 0 && forall|j: int|
                0 <= j < k - (u + 1) ==> is_name_char(#[trigger] name[j])),
        decreases stem_len - k,
    {
        let c = chars[k];
        assert(name[k - (u + 1)] == c);
        if !(('a' <= c && c <= 'z') || ('0' <= c && c <= '9') || c == '_') {
            name_ok = false;
        }
        k += 1;
    }
    if !name_ok {
        return Err(schema_error("迁移名称格式无效：", file_name));
    }
    let d0 = chars[0] as u32 - '0' as u32;
    let d1 = chars[1] as u32 - '0' as u32;
    let d2 = chars[2] as u32 - '0' as u32;
    let d3 = chars[3] as u32 - '0' as u32;
    assert(is_digit(version[0]) && is_digit(version[1]) && is_digit(version[2]) && is_digit(
        version[3],
    ));
    let value = d0 * 1000 + d1 * 100 + d2 * 10 + d3;
    let name_string = crate::text::string_from_chars(&chars, u + 1, stem_len);
    Ok((value, name_string))
}

/// The last segment of a path, after its last `'/'` or `'\\'`.
pub open spec fn file_name_of(path: Seq<char>) -> Seq<char>
    decreases path.len(),
{
    if path.len() == 0 {
        Seq::empty()
    } else if path.last() == '/' || path.last() == '\\' {
        Seq::empty()
    } else {
        file_name_of(path.drop_last()).push(path.last())
    }
}

/// The last segment of a path.
pub fn file_name_from_path(path: &str) -> (name: String)
    ensures
        name@ == file_name_of(path@),
{
    let chars = crate::text::chars_of(path);
    let mut start: usize = chars.len();
    assert(chars@.take(start as int) =~= chars@);
    assert(chars@.subrange(start as int, chars@.len() as int) =~= Seq::<char>::empty());
    while start > 0 && chars[start - 1] != '/' && chars[start - 1] != '\\'
        invariant
            start <= chars@.len(),
            file_name_of(chars@) == file_name_of(chars@.take(start as int)) + chars@.subrange(
                start as int,
                chars@.len() as int,
            ),
        decreases start,
    {
        assert(chars@.take(start as int).drop_last() =~= chars@.take(start - 1));
        assert(chars@.take(start as int).last() == chars@[start - 1]);
        assert(chars@.subrange(start - 1, chars@.len() as int) =~= seq![chars@[start - 1]]
            + chars@.subrange(start as int, chars@.len() as int));
        start -= 1;
    }
    proof {
        if start > 0 {
            assert(chars@.take(start as int).last() == chars@[start - 1]);
        }
        assert(file_name_of(chars@.take(start as int)) =~= Seq::<char>::empty());
        assert(chars@.take(chars@.len() as int) =~= chars@);
    }
    crate::text::string_from_chars(&chars, start, chars.len())
}

/// A migration's parsed view: version, name, checksum and the SQL it runs.
pub type MigrationView = (u32, Seq<char>, Seq<char>, Seq<u8>);

/// The view of a migration.
pub open spec fn migration_view(m: EmbeddedMigration) -> MigrationView {
    (m.version, m.name@, m.checksum@, m.sql@)
}

/// Whether a migration list has a migration of version `v`.
pub open spec fn has_version(ms: Seq<MigrationView>, v: u32) -> bool {
    exists|k: int| 0 <= k < ms.len() && (#[trigger] ms[k]).0 == v
}

/// The migrations of a manifest in the order of its entries, or the first entry's failure:
/// a refused file name or a version already given.
pub open spec fn parsed_entries(entries: Seq<(Seq<char>, Seq<u8>)>) -> Result<Seq<MigrationView>, Seq<char>>
    decreases entries.len(),
{
    if entries.len() == 0 {
        Ok(Seq::empty())
    } else {
        match parsed_entries(entries.drop_last()) {
            Err(m) => Err(m),
            Ok(prev) => match parse_name_spec(file_name_of(entries.last().0)) {
                Err(m) => Err(m),
                Ok((v, n)) => if has_version(prev, v) {
                    Err("迁移版本重复："@ + decimal(v as nat))
                } else {
                    Ok(prev.push((v, n, checksum_spec(entries.last().1), entries.last().1)))
                },
            },
        }
    }
}

/// A list of migrations in strictly increasing version order.
pub open spec fn sorted_by_version(ms: Seq<MigrationView>) -> bool {
    forall|i: int, j: int| 0 <= i < j < ms.len() ==> (#[trigger] ms[i]).0 < (#[trigger] ms[j]).0
}

/// The view of the entries of a manifest.
pub open spec fn entries_view(entries: Seq<(String, Vec<u8>)>) -> Seq<(Seq<char>, Seq<u8>)> {
    entries.map_values(|e: (String, Vec<u8>)| (e.0@, e.1@))
}

/// The migrations of a manifest of file paths and contents, ordered by version; the first
/// entry whose file name is refused, or whose version an earlier entry has, fails it.
pub fn migrations_from_entries(entries: Vec<(String, Vec<u8>)>) -> (r: Result<Vec<EmbeddedMigration>, AppError>)
    ensures
        match parsed_entries(entries_view(entries@)) {
            Ok(list) => r matches Ok(v) && sorted_by_version(
                v@.map_values(|m: EmbeddedMigration| migration_view(m)),
            ) && v@.map_values(|m: EmbeddedMigration| migration_view(m)).to_set() == list.to_set()
                && v@.len() == list.len(),
            Err(msg) => r matches Err(AppError::SchemaIncompatible(e)) && e@ == msg,
        },
{
    let ghost ev = entries_view(entries@);
    let mut remaining = entries;
    let ghost original = remaining@;
    let mut sorted: Vec<EmbeddedMigration> = Vec::new();
    let ghost mut processed: Seq<MigrationView> = Seq::empty();
    let mut i: usize = 0;
    let total = remaining.len();
    while remaining.len() > 0
        invariant
            total == original.len(),
            ev == entries_view(original),
            ev == entries_view(entries@),
            i + remaining@.len() == original.len(),
            remaining@ == original.skip(i as int),
            parsed_entries(ev.take(i as int)) == Ok::<Seq<MigrationView>, Seq<char>>(processed),
            sorted_by_version(sorted@.map_values(|m: EmbeddedMigration| migration_view(m))),
            sorted@.map_values(|m: EmbeddedMigration| migration_view(m)).to_set() == processed.to_set(),
            sorted@.len() == processed.len(),
            processed.len() == i,
        decreases remaining@.len(),
    {
        let (path, sql) = remaining.remove(0);
        assert(ev.take(i + 1).drop_last() =~= ev.take(i as int));
        assert(ev.take(i + 1).last() == (path@, sql@));
        let file_name = file_name_from_path(path.as_str());
        let parsed = parse_migration_file_name(file_name.as_str());
        let (version, name) = match parsed {
            Ok(p) => p,
            Err(e) => {
                proof {
                    assert(parsed_entries(ev.take(i + 1)) == match parse_name_spec(file_name_of(path@)) {
                        Err(m) => Err::<Seq<MigrationView>, Seq<char>>(m),
                        Ok(_) => Err::<Seq<MigrationView>, Seq<char>>(Seq::empty()),
                    });
                    lemma_parsed_prefix_error(ev, i + 1);
                }
                return Err(e);
            },
        };
        let ghost sv = sorted@.map_values(|m: EmbeddedMigration| migration_view(m));
        let mut pos: usize = 0;
        let mut dup = false;
        while pos < sorted.len()
            invariant_except_break
                !dup,
            invariant
                pos <= sorted@.len(),
                sv == sorted@.map_values(|m: EmbeddedMigration| migration_view(m)),
                sorted_by_version(sv),
                forall|k: int| 0 <= k < pos ==> (#[trigger] sv[k]).0 < version,
            ensures
                dup ==> pos < sorted@.len() && sv[pos as int].0 == version,
                !dup ==> forall|k: int| 0 <= k < pos ==> (#[trigger] sv[k]).0 < version,
                !dup ==> forall|k: int| pos <= k < sv.len() ==> (#[trigger] sv[k]).0 > version,
            decreases sorted@.len() - pos,
        {
            assert(sv[pos as int].0 == sorted@[pos as int].version);
            if sorted[pos].version == version {
                dup = true;
                break;
            }
            if sorted[pos].version > version {
                break;
            }
            pos += 1;
        }
        proof {
            assert(has_version(processed, version) == dup) by {
                if dup {
                    assert(sv.to_set().contains(sv[pos as int]));
                    let w = sv[pos as int];
                    assert(processed.to_set().contains(w));
                    let k = choose|k: int| 0 <= k < processed.len() && processed[k] == w;
                    assert(processed[k].0 == version);
                }
                if has_version(processed, version) {
                    let k = choose|k: int| 0 <= k < processed.len() && (#[trigger] processed[k]).0 == version;
                    assert(processed.to_set().contains(processed[k]));
                    assert(sv.to_set().contains(processed[k]));
                    let j = choose|j: int| 0 <= j < sv.len() && sv[j] == processed[k];
                    assert(sv[j].0 == version);
                }
            }
        }
        if dup {
            let mut m = String::from_str("迁移版本重复：");
            push_decimal(&mut m, version as u64);
            proof {
                assert(parse_name_spec(file_name_of(path@)) == Ok::<(u32, Seq<char>), Seq<char>>(
                    (version, name@),
                ));
                assert(parsed_entries(ev.take(i + 1)) == Err::<Seq<MigrationView>, Seq<char>>(
                    "迁移版本重复："@ + decimal(version as nat),
                ));
                lemma_parsed_prefix_error(ev, i + 1);
            }
            return Err(AppError::SchemaIncompatible(m));
        }
        let checksum = migration_checksum(sql.as_slice());
        let migration = EmbeddedMigration { version, name, sql, checksum };
        let ghost mv = migration_view(migration);
        sorted.insert(pos, migration);
        proof {
            let nv = sorted@.map_values(|m: EmbeddedMigration| migration_view(m));
            assert(nv =~= sv.insert(pos as int, mv));
            assert forall|a: int, b: int| 0 <= a < b < nv.len() implies (#[trigger] nv[a]).0 < (#[trigger] nv[b]).0 by {
                if b < pos {
                    assert(nv[a] == sv[a] && nv[b] == sv[b]);
                } else if b == pos {
                    assert(nv[a] == sv[a]);
                } else if a < pos {
                    assert(nv[a] == sv[a] && nv[b] == sv[b - 1]);
                } else if a == pos {
                    assert(nv[b] == sv[b - 1]);
                } else {
                    assert(nv[a] == sv[a - 1] && nv[b] == sv[b - 1]);
                }
            }
            assert(nv.to_set() =~= processed.push(mv).to_set()) by {
                assert forall|x: MigrationView| nv.to_set().contains(x) <==> processed.push(mv).to_set().contains(x) by {
                    if nv.to_set().contains(x) {
                        let k = choose|k: int| 0 <= k < nv.len() && nv[k] == x;
                        if k == pos {
                            assert(processed.push(mv)[processed.len() as int] == x);
                        } else {
                            let j = if k < pos { k } else { k - 1 };
                            assert(sv[j] == x);
                            assert(sv.to_set().contains(x));
                            let q = choose|q: int| 0 <= q < processed.len() && processed[q] == x;
                            assert(processed.push(mv)[q] == x);
                        }
                    }
                    if processed.push(mv).to_set().contains(x) {
                        let q = choose|q: int| 0 <= q < processed.push(mv).len() && processed.push(mv)[q] == x;
                        if q == processed.len() {
                            assert(nv[pos as int] == x);
                        } else {
                            assert(processed[q] == x);
                            assert(processed.to_set().contains(x));
                            let k = choose|k: int| 0 <= k < sv.len() && sv[k] == x;
                            if k < pos {
                                assert(nv[k] == x);
                            } else {
                                assert(nv[k + 1] == x);
                            }
                        }
                    }
                }
            }
            processed = processed.push(mv);
        }
        i += 1;
    }
    assert(ev.take(i as int) =~= ev);
    Ok(sorted)
}

proof fn lemma_parsed_prefix_error(entries: Seq<(Seq<char>, Seq<u8>)>, n: int)
    requires
        0 <= n <= entries.len(),
        parsed_entries(entries.take(n)) is Err,
    ensures
        parsed_entries(entries) == parsed_entries(entries.take(n)),
    decreases entries.len() - n,
{
    if n < entries.len() {
        assert(entries.take(n + 1).drop_last() =~= entries.take(n));
        lemma_parsed_prefix_error(entries, n + 1);
    } else {
        assert(entries.take(n) =~= entries);
    }
}

/// What bringing a database to the current schema takes, by its recorded schema version.
#[derive(Debug, Clone, Copy, PartialEq, Eq, Structural)]
pub enum SchemaAction {
    /// The database is current: its migration history is to be checked.
    ValidateCurrent,
    /// The database has no schema yet.
    Fresh,
    /// Version 1: upgrade to 2, then 3, then apply the migrations after the baseline.
    MigrateFromVersionOne,
    /// Version 2: upgrade to 3, then apply the migrations after the baseline.
    MigrateFromVersionTwo,
    /// The baseline version: apply the migrations after it.
    ApplyFromBaseline,
}

/// The message for a schema version this program cannot read.
pub open spec fn unsupported_version_message(v: u32) -> Seq<char> {
    "当前支持 schema_version=4，数据库为 "@ + decimal(v as nat)
}

/// What to do with a database of the given schema version; a version newer than the current
/// one, or unknown, is refused.
pub fn schema_action(version: Option<u32>) -> (r: Result<SchemaAction, AppError>)
    ensures
        version is None ==> r == Ok::<SchemaAction, AppError>(SchemaAction::Fresh),
        version == Some(CURRENT_SCHEMA_VERSION) ==> r == Ok::<SchemaAction, AppError>(
            SchemaAction::ValidateCurrent,
        ),
        version == Some(1u32) ==> r == Ok::<SchemaAction, AppError>(SchemaAction::MigrateFromVersionOne),
        version == Some(2u32) ==> r == Ok::<SchemaAction, AppError>(SchemaAction::MigrateFromVersionTwo),
        version == Some(LEGACY_BASELINE_VERSION) ==> r == Ok::<SchemaAction, AppError>(
            SchemaAction::ApplyFromBaseline,
        ),
        version is Some && version->0 != 1 && version->0 != 2 && version->0 != 3 && version->0 != 4
            ==> (r matches Err(AppError::SchemaIncompatible(m)) && m@ == unsupported_version_message(
            version->0,
        )),
{
    match version {
        None => Ok(SchemaAction::Fresh),
        Some(v) => {
            if v == CURRENT_SCHEMA_VERSION {
                Ok(SchemaAction::ValidateCurrent)
            } else if v == 1 {
                Ok(SchemaAction::MigrateFromVersionOne)
            } else if v == 2 {
                Ok(SchemaAction::MigrateFromVersionTwo)
            } else if v == LEGACY_BASELINE_VERSION {
                Ok(SchemaAction::ApplyFromBaseline)
            } else {
                let mut m = String::from_str("当前支持 schema_version=4，数据库为 ");
                push_decimal(&mut m, v as u64);
                Err(AppError::SchemaIncompatible(m))
            }
        },
    }
}

/// The positions of the migrations newer than `from_version`, in order.
pub fn migrations_after(migrations: &Vec<EmbeddedMigration>, from_version: u32) -> (idx: Vec<usize>)
    ensures
        idx@.map_values(|i: usize| i as int) == Seq::new(migrations@.len(), |k: int| k).filter(
            |k: int| migrations@[k].version > from_version,
        ),
{
    let ghost all = Seq::new(migrations@.len(), |k: int| k);
    let mut idx: Vec<usize> = Vec::new();
    let mut i: usize = 0;
    while i < migrations.len()
        invariant
            i <= migrations@.len(),
            all == Seq::new(migrations@.len(), |k: int| k),
            idx@.map_values(|i: usize| i as int) == all.take(i as int).filter(
                |k: int| migrations@[k].version > from_version,
            ),
        decreases migrations.len() - i,
    {
        proof {
            assert(all.take(i + 1) =~= all.take(i as int).push(i as int));
            all.take(i as int).lemma_filter_push(
                i as int,
                |k: int| migrations@[k].version > from_version,
            );
        }
        if migrations[i].version > from_version {
            let ghost before = idx@;
            idx.push(i);
            assert(idx@.map_values(|i: usize| i as int) =~= before.map_values(|i: usize| i as int).push(
                i as int,
            ));
        }
        i += 1;
    }
    assert(all.take(migrations.len() as int) =~= all);
    idx
}

/// The message for a migration history that records a version newer than this program's.
pub open spec fn future_history_message(v: u32) -> Seq<char> {
    "迁移历史包含高于当前程序的版本："@ + decimal(v as nat)
}

/// Refuses a migration history whose highest version is newer than the current one.
pub fn check_history_version(max_version: Option<u32>) -> (r: Result<(), AppError>)
    ensures
        match max_version {
            Some(v) if v > CURRENT_SCHEMA_VERSION => r matches Err(AppError::SchemaIncompatible(m))
                && m@ == future_history_message(v),
            _ => r == Ok::<(), AppError>(()),
        },
{
    match max_version {
        Some(v) => {
            if v > CURRENT_SCHEMA_VERSION {
                let mut m = String::from_str("迁移历史包含高于当前程序的版本：");
                push_decimal(&mut m, v as u64);
                Err(AppError::SchemaIncompatible(m))
            } else {
                Ok(())
            }
        },
        None => Ok(()),
    }
}

/// Checks the recorded checksum of the baseline: it must be there and be the baseline's.
pub fn check_baseline_checksum(checksum: Option<&str>) -> (r: Result<(), AppError>)
    ensures
        checksum is None ==> (r matches Err(AppError::SchemaIncompatible(m)) && m@
            == "迁移历史缺少 baseline 版本：3"@),
        checksum matches Some(c) && c@ != "legacy-schema-v3"@ ==> (r matches Err(
            AppError::SchemaIncompatible(m),
        ) && m@ == "baseline 3 checksum 不一致"@),
        checksum matches Some(c) && c@ == "legacy-schema-v3"@ ==> r == Ok::<(), AppError>(()),
{
    match checksum {
        None => Err(AppError::SchemaIncompatible(String::from_str("迁移历史缺少 baseline 版本：3"))),
        Some(c) => {
            if str_eq(c, "legacy-schema-v3") {
                Ok(())
            } else {
                Err(AppError::SchemaIncompatible(String::from_str("baseline 3 checksum 不一致")))
            }
        },
    }
}

/// The message for a migration whose recorded checksum differs from the shipped one.
pub open spec fn checksum_mismatch_message(v: u32) -> Seq<char> {
    "迁移 "@ + decimal(v as nat) + " checksum 不一致"@
}

/// Refuses a migration whose recorded checksum, if any, differs from the shipped one.
pub fn check_existing_checksum(existing: Option<&str>, migration: &EmbeddedMigration) -> (r: Result<
    (),
    AppError,
>)
    ensures
        (existing matches Some(c) && c@ != migration.checksum@) ==> (r matches Err(
            AppError::SchemaIncompatible(m),
        ) && m@ == checksum_mismatch_message(migration.version)),
        !(existing matches Some(c) && c@ != migration.checksum@) ==> r == Ok::<(), AppError>(()),
{
    match existing {
        Some(c) => {
            if !str_eq(c, migration.checksum.as_str()) {
                let mut m = String::from_str("迁移 ");
                push_decimal(&mut m, migration.version as u64);
                m.append(" checksum 不一致");
                Err(AppError::SchemaIncompatible(m))
            } else {
                Ok(())
            }
        },
        None => Ok(()),
    }
}

/// Whether a history row must be written for a migration: not when one is recorded with the
/// same checksum, refused when one is recorded with another.
pub fn history_needs_insert(existing: Option<&str>, version: u32, checksum: &str) -> (r: Result<bool, AppError>)
    ensures
        existing is None ==> r == Ok::<bool, AppError>(true),
        existing matches Some(c) && c@ == checksum@ ==> r == Ok::<bool, AppError>(false),
        existing matches Some(c) && c@ != checksum@ ==> (r matches Err(AppError::SchemaIncompatible(m))
            && m@ == checksum_mismatch_message(version)),
{
    match existing {
        None => Ok(true),
        Some(c) => {
            if str_eq(c, checksum) {
                Ok(false)
            } else {
                let mut m = String::from_str("迁移 ");
                push_decimal(&mut m, version as u64);
                m.append(" checksum 不一致");
                Err(AppError::SchemaIncompatible(m))
            }
        },
    }
}

/// Refuses a current database whose history lacks the current version.
pub fn check_current_in_history(contains_current: bool) -> (r: Result<(), AppError>)
    ensures
        contains_current ==> r == Ok::<(), AppError>(()),
        !contains_current ==> (r matches Err(AppError::SchemaIncompatible(m)) && m@
            == "迁移历史缺少当前版本：4"@),
{
    if contains_current {
        Ok(())
    } else {
        Err(AppError::SchemaIncompatible(String::from_str("迁移历史缺少当前版本：4")))
    }
}

} // verus!
