//! Editing the `[dependencies]` table of `ax.toml`.
//!
//! The command line names dependencies as `group:artifact@version` to add
//! and `group:artifact` to remove. The file is edited with `toml_edit`,
//! which keeps its layout; the library reads the specs, decides what to
//! do and applies it to the document.
use vstd::prelude::*;
use crate::maven::{spec_parse_dependency, Coordinate};
use crate::text::{
    concat, contains_char, first_occurrence, push_str, split, split_str, sub_string, to_chars,
    trim, trim_str,
};
use toml_edit::DocumentMut;

verus! {

/// A dependency to add: its `group:artifact` key and its version.
#[derive(Clone, Debug, Eq, PartialEq)]
pub struct DependencySpec {
    pub key: String,
    pub version: String,
}

/// The message for an add spec without `@`.
pub open spec fn add_spec_message(spec: Seq<char>) -> Seq<char> {
    "Invalid dependency spec `"@ + spec + "`. Expected `group:artifact@version`"@
}

/// What reading an add spec gives: the key and version as a coordinate
/// reads them (split at the first `@`).
pub open spec fn spec_add_spec(spec: Seq<char>) -> Result<(Seq<char>, Seq<char>), Seq<char>> {
    match first_occurrence(spec, seq!['@']) {
        None => Err(add_spec_message(spec)),
        Some(at) => match spec_parse_dependency(
            spec.subrange(0, at),
            spec.subrange(at + 1, spec.len() as int),
        ) {
            Ok(c) => Ok((c.0 + ":"@ + c.1, c.2)),
            Err(m) => Err(m),
        },
    }
}

/// What reading `group:artifact` gives: both parts, trimmed and not empty.
pub open spec fn spec_group_artifact(spec: Seq<char>) -> Result<(Seq<char>, Seq<char>), Seq<char>> {
    let parts = split(spec, ':');
    if parts.len() != 2 || trim(parts[0]).len() == 0 || trim(parts[1]).len() == 0 {
        Err("Invalid dependency coordinate `"@ + spec + "`. Expected `group:artifact`"@)
    } else {
        Ok((trim(parts[0]), trim(parts[1])))
    }
}

/// What reading a remove spec gives: a `group:artifact` key, without `@`.
pub open spec fn spec_remove_spec(spec: Seq<char>) -> Result<Seq<char>, Seq<char>> {
    if spec.contains('@') {
        Err("Invalid dependency spec `"@ + spec + "`. Expected `group:artifact`"@)
    } else {
        match spec_group_artifact(spec) {
            Ok((g, a)) => Ok(g + ":"@ + a),
            Err(m) => Err(m),
        }
    }
}

proof fn lemma_first_at(s: Seq<char>)
    ensures
        match first_occurrence(s, seq!['@']) {
            Some(i) => 0 <= i < s.len() && s[i] == '@',
            None => true,
        },
{
    crate::pom::lemma_first_occurrence(s, seq!['@']);
    match first_occurrence(s, seq!['@']) {
        Some(i) => {
            assert(s.subrange(i, i + 1)[0] == '@');
        },
        None => {},
    }
}

/// Reads `group:artifact@version`.
pub fn parse_add_spec(spec: &str) -> (r: Result<DependencySpec, String>)
    ensures
        match spec_add_spec(spec@) {
            Ok((k, v)) => r matches Ok(d) && d.key@ == k && d.version@ == v,
            Err(m) => r matches Err(e) && e@ == m,
        },
{
    let c = to_chars(spec);
    let at: Vec<char> = vec!['@'];
    assert(at@ =~= seq!['@']);
    proof {
        lemma_first_at(spec@);
    }
    let pos = match crate::text::find(c.as_slice(), at.as_slice()) {
        Some(p) => p,
        None => {
            let mut m = concat("Invalid dependency spec `", spec);
            push_str(&mut m, "`. Expected `group:artifact@version`");
            return Err(m);
        },
    };
    let key = sub_string(c.as_slice(), 0, pos);
    let version = sub_string(c.as_slice(), pos + 1, c.len());
    match Coordinate::parse_dependency(key.as_str(), version.as_str()) {
        Ok(coordinate) => {
            let mut k = concat(coordinate.group_id.as_str(), ":");
            push_str(&mut k, coordinate.artifact_id.as_str());
            Ok(DependencySpec { key: k, version: coordinate.version })
        },
        Err(e) => Err(e),
    }
}

/// Reads `group:artifact`.
pub fn parse_group_artifact(spec: &str) -> (r: Result<(String, String), String>)
    ensures
        match spec_group_artifact(spec@) {
            Ok((g, a)) => r matches Ok(p) && p.0@ == g && p.1@ == a,
            Err(m) => r matches Err(e) && e@ == m,
        },
{
    let parts = split_str(spec, ':');
    if parts.len() != 2 {
        let mut m = concat("Invalid dependency coordinate `", spec);
        push_str(&mut m, "`. Expected `group:artifact`");
        return Err(m);
    }
    assert(parts@[0]@ == split(spec@, ':')[0]);
    assert(parts@[1]@ == split(spec@, ':')[1]);
    let g = trim_str(parts[0].as_str());
    let a = trim_str(parts[1].as_str());
    if g.as_str().unicode_len() == 0 || a.as_str().unicode_len() == 0 {
        let mut m = concat("Invalid dependency coordinate `", spec);
        push_str(&mut m, "`. Expected `group:artifact`");
        return Err(m);
    }
    Ok((g, a))
}

/// Reads a `group:artifact` spec to remove.
pub fn parse_remove_spec(spec: &str) -> (r: Result<String, String>)
    ensures
        match spec_remove_spec(spec@) {
            Ok(k) => r matches Ok(s) && s@ == k,
            Err(m) => r matches Err(e) && e@ == m,
        },
{
    if contains_char(spec, '@') {
        let mut m = concat("Invalid dependency spec `", spec);
        push_str(&mut m, "`. Expected `group:artifact`");
        return Err(m);
    }
    match parse_group_artifact(spec) {
        Ok((g, a)) => {
            let mut k = concat(g.as_str(), ":");
            push_str(&mut k, a.as_str());
            Ok(k)
        },
        Err(e) => Err(e),
    }
}

// ---------------------------------------------------------------------------
// The document
// ---------------------------------------------------------------------------

#[verifier::external_type_specification]
#[verifier::external_body]
pub struct ExDocumentMut(toml_edit::DocumentMut);

/// The entries of a `[dependencies]` table: each key, with its text when
/// its value is a string.
pub type TomlDeps = Map<Seq<char>, Option<Seq<char>>>;

/// The `[dependencies]` table of a document, when the top-level item
/// `dependencies` is a table.
pub uninterp spec fn toml_dependencies(doc: DocumentMut) -> Option<TomlDeps>;

/// The document has a top-level item `dependencies`.
pub uninterp spec fn toml_has_dependencies(doc: DocumentMut) -> bool;

/// The text of a document as `Display` writes it (the layout of the text
/// it was read from, with the edits made since).
pub uninterp spec fn toml_text(doc: DocumentMut) -> Seq<char>;

/// Everything in a document but its top-level `dependencies` item: the
/// text that `Display` writes for the document with that item taken out
/// (every other item, with its layout).
pub uninterp spec fn toml_rest(doc: DocumentMut) -> Seq<char>;

/// What `DocumentMut::from_str` reads from a text: whether the document
/// has a top-level `dependencies` item, when that item is a table its
/// entries, and the rest of the document (as `toml_rest` names it); or the
/// parser's message.
pub uninterp spec fn toml_parse(text: Seq<char>) -> Result<(bool, Option<TomlDeps>, Seq<char>), Seq<char>>;

/// `DocumentMut::from_str`: the parsed document, whose `dependencies` and
/// rest are what `toml_parse` names, or the parser's message.
#[verifier::external_body]
fn parse_document(text: &str) -> (r: Result<DocumentMut, String>)
    ensures
        match toml_parse(text@) {
            Ok((h, d, rest)) => r matches Ok(doc) && toml_has_dependencies(doc) == h
                && toml_dependencies(doc) == d && toml_rest(doc) == rest,
            Err(m) => r matches Err(e) && e@ == m,
        },
{
    text.parse::<DocumentMut>().map_err(|err| err.to_string())
}

/// `Display for DocumentMut`: the document's text, as `toml_text` names
/// it.
#[verifier::external_body]
fn document_text(doc: &DocumentMut) -> (r: String)
    ensures
        r@ == toml_text(*doc),
{
    doc.to_string()
}

/// `Table::entry("dependencies").or_insert(Item::Table(..))` on the root
/// table, then `Item::as_table_mut`: a missing `dependencies` item becomes
/// an empty table; the result tells whether the item is a table. The rest
/// of the document is untouched.
#[verifier::external_body]
fn ensure_dependencies_table(doc: &mut DocumentMut) -> (is_table: bool)
    ensures
        !toml_has_dependencies(*old(doc)) ==> toml_dependencies(*final(doc)) == Some(
            Map::<Seq<char>, Option<Seq<char>>>::empty(),
        ),
        toml_has_dependencies(*old(doc)) ==> *final(doc) == *old(doc),
        toml_has_dependencies(*final(doc)),
        is_table == (toml_dependencies(*final(doc)) is Some),
        toml_rest(*final(doc)) == toml_rest(*old(doc)),
{
    doc.as_table_mut().entry("dependencies").or_insert(toml_edit::Item::Table(
        toml_edit::Table::new(),
    )).as_table_mut().is_some()
}

/// `Table::insert(key, value(version))` in the `[dependencies]` table; the
/// rest of the document is untouched.
#[verifier::external_body]
fn set_dependency(doc: &mut DocumentMut, key: &str, version: &str)
    requires
        toml_dependencies(*old(doc)) is Some,
    ensures
        toml_dependencies(*final(doc)) == Some(
            toml_dependencies(*old(doc))->0.insert(key@, Some(version@)),
        ),
        toml_has_dependencies(*final(doc)),
        toml_rest(*final(doc)) == toml_rest(*old(doc)),
{
    if let Some(table) = doc.as_table_mut().get_mut("dependencies").and_then(toml_edit::Item::as_table_mut) {
        table.insert(key, toml_edit::value(version));
    }
}

/// `Table::contains_key(key)` in the `[dependencies]` table.
#[verifier::external_body]
fn has_dependency(doc: &DocumentMut, key: &str) -> (b: bool)
    requires
        toml_dependencies(*doc) is Some,
    ensures
        b == toml_dependencies(*doc)->0.contains_key(key@),
{
    match doc.as_table().get("dependencies").and_then(toml_edit::Item::as_table) {
        Some(table) => table.contains_key(key),
        None => false,
    }
}

/// `Table::remove(key)` in the `[dependencies]` table; the rest of the
/// document is untouched.
#[verifier::external_body]
fn remove_dependency(doc: &mut DocumentMut, key: &str)
    requires
        toml_dependencies(*old(doc)) is Some,
    ensures
        toml_dependencies(*final(doc)) == Some(toml_dependencies(*old(doc))->0.remove(key@)),
        toml_has_dependencies(*final(doc)) == toml_has_dependencies(*old(doc)),
        toml_rest(*final(doc)) == toml_rest(*old(doc)),
{
    if let Some(table) = doc.as_table_mut().get_mut("dependencies").and_then(toml_edit::Item::as_table_mut) {
        table.remove(key);
    }
}

/// The message for a file that cannot be parsed.
pub open spec fn parse_failure_message(path: Seq<char>, err: Seq<char>) -> Seq<char> {
    "Failed to parse `"@ + path + "`: "@ + err
}

fn parse_failure(path: &str, err: &str) -> (m: String)
    ensures
        m@ == parse_failure_message(path@, err@),
{
    let mut m = concat("Failed to parse `", path);
    push_str(&mut m, "`: ");
    push_str(&mut m, err);
    m
}

/// The first spec from index `i` on that does not read as an add spec.
pub open spec fn first_bad_add_spec(specs: Seq<String>, i: int) -> Option<Seq<char>>
    decreases specs.len() - i,
{
    if i < 0 || i >= specs.len() {
        None
    } else {
        match spec_add_spec(specs[i]@) {
            Err(m) => Some(m),
            Ok(_) => first_bad_add_spec(specs, i + 1),
        }
    }
}

/// The first spec from index `i` on that does not read as a remove spec.
pub open spec fn first_bad_remove_spec(specs: Seq<String>, i: int) -> Option<Seq<char>>
    decreases specs.len() - i,
{
    if i < 0 || i >= specs.len() {
        None
    } else {
        match spec_remove_spec(specs[i]@) {
            Err(m) => Some(m),
            Ok(_) => first_bad_remove_spec(specs, i + 1),
        }
    }
}

/// Reads every add spec; fails on the first that does not read.
pub fn parse_add_specs(specs: &[String]) -> (r: Result<Vec<DependencySpec>, String>)
    ensures
        match first_bad_add_spec(specs@, 0) {
            Some(m) => r matches Err(e) && e@ == m,
            None => r matches Ok(v) && v@.len() == specs@.len() && forall|i: int|
                0 <= i < specs@.len() ==> spec_add_spec(#[trigger] specs@[i]@) == Ok::<
                    (Seq<char>, Seq<char>),
                    Seq<char>,
                >((v@[i].key@, v@[i].version@)),
        },
{
    let mut out: Vec<DependencySpec> = Vec::new();
    let mut i: usize = 0;
    while i < specs.len()
        invariant
            i <= specs@.len(),
            out@.len() == i,
            first_bad_add_spec(specs@, 0) == first_bad_add_spec(specs@, i as int),
            forall|k: int|
                0 <= k < i ==> spec_add_spec(#[trigger] specs@[k]@) == Ok::<
                    (Seq<char>, Seq<char>),
                    Seq<char>,
                >((out@[k].key@, out@[k].version@)),
        decreases specs.len() - i,
    {
        match parse_add_spec(specs[i].as_str()) {
            Ok(d) => out.push(d),
            Err(e) => return Err(e),
        }
        i = i + 1;
    }
    Ok(out)
}

/// Reads every remove spec; fails on the first that does not read.
pub fn parse_remove_specs(specs: &[String]) -> (r: Result<Vec<String>, String>)
    ensures
        match first_bad_remove_spec(specs@, 0) {
            Some(m) => r matches Err(e) && e@ == m,
            None => r matches Ok(v) && v@.len() == specs@.len() && forall|i: int|
                0 <= i < specs@.len() ==> spec_remove_spec(#[trigger] specs@[i]@) == Ok::<
                    Seq<char>,
                    Seq<char>,
                >(v@[i]@),
        },
{
    let mut out: Vec<String> = Vec::new();
    let mut i: usize = 0;
    while i < specs.len()
        invariant
            i <= specs@.len(),
            out@.len() == i,
            first_bad_remove_spec(specs@, 0) == first_bad_remove_spec(specs@, i as int),
            forall|k: int|
                0 <= k < i ==> spec_remove_spec(#[trigger] specs@[k]@) == Ok::<
                    Seq<char>,
                    Seq<char>,
                >(out@[k]@),
        decreases specs.len() - i,
    {
        match parse_remove_spec(specs[i].as_str()) {
            Ok(k) => out.push(k),
            Err(e) => return Err(e),
        }
        i = i + 1;
    }
    Ok(out)
}

/// The key and version that each add spec reads as.
pub open spec fn add_pairs(specs: Seq<String>) -> Seq<(Seq<char>, Seq<char>)> {
    specs.map_values(
        |s: String|
            match spec_add_spec(s@) {
                Ok(p) => p,
                Err(_) => (Seq::empty(), Seq::empty()),
            },
    )
}

/// `text` is the text of a document whose `[dependencies]` table is
/// `table` (and which has a `dependencies` item exactly when `has`), and
/// whose other items are `rest`.
pub open spec fn written(text: Seq<char>, has: bool, table: TomlDeps, rest: Seq<char>) -> bool {
    exists|d: DocumentMut|
        text == toml_text(d) && toml_has_dependencies(d) == has && toml_dependencies(d) == Some(
            table,
        ) && toml_rest(d) == rest
}

/// The items of the document a text reads as, apart from `dependencies`.
pub open spec fn text_rest(text: Seq<char>) -> Seq<char> {
    match toml_parse(text) {
        Ok((_, _, rest)) => rest,
        Err(_) => Seq::empty(),
    }
}

/// The key that each remove spec reads as.
pub open spec fn remove_keys(specs: Seq<String>) -> Seq<Seq<char>> {
    specs.map_values(
        |s: String|
            match spec_remove_spec(s@) {
                Ok(k) => k,
                Err(_) => Seq::empty(),
            },
    )
}

/// The table with each pair set in turn (a later pair of the same key
/// wins).
pub open spec fn insert_all(m: TomlDeps, pairs: Seq<(Seq<char>, Seq<char>)>) -> TomlDeps
    decreases pairs.len(),
{
    if pairs.len() == 0 {
        m
    } else {
        insert_all(m, pairs.drop_last()).insert(pairs.last().0, Some(pairs.last().1))
    }
}

/// The table without the keys.
pub open spec fn remove_all(m: TomlDeps, keys: Seq<Seq<char>>) -> TomlDeps
    decreases keys.len(),
{
    if keys.len() == 0 {
        m
    } else {
        remove_all(m, keys.drop_last()).remove(keys.last())
    }
}

/// What adding does to the table a text has, or why it fails: a spec that
/// does not read, text that does not parse, or a `dependencies` item that
/// is not a table. A missing table starts empty.
pub open spec fn spec_add_to_text(text: Seq<char>, path: Seq<char>, specs: Seq<String>) -> Result<
    TomlDeps,
    Seq<char>,
> {
    match first_bad_add_spec(specs, 0) {
        Some(m) => Err(m),
        None => match toml_parse(text) {
            Err(msg) => Err(parse_failure_message(path, msg)),
            Ok((h, d, _)) => if !h {
                Ok(insert_all(Map::empty(), add_pairs(specs)))
            } else {
                match d {
                    Some(m) => Ok(insert_all(m, add_pairs(specs))),
                    None => Err("`dependencies` exists but is not a table"@),
                }
            },
        },
    }
}

/// Adds (or updates) dependencies in the text of `ax.toml` read from
/// `path`: the new text, whose `[dependencies]` table is the old one (or an
/// empty one) with each spec's key set to its version, and the specs read.
pub fn add_dependencies_to_text(text: &str, path: &str, specs: &[String]) -> (r: Result<
    (String, Vec<DependencySpec>),
    String,
>)
    ensures
        match spec_add_to_text(text@, path@, specs@) {
            Err(m) => r matches Err(e) && e@ == m,
            Ok(table) => r matches Ok((t, v)) && written(t@, true, table, text_rest(text@)) && v@.len()
                == specs@.len() && forall|i: int|
                0 <= i < specs@.len() ==> spec_add_spec(#[trigger] specs@[i]@) == Ok::<
                    (Seq<char>, Seq<char>),
                    Seq<char>,
                >((v@[i].key@, v@[i].version@)),
        },
{
    let parsed = match parse_add_specs(specs) {
        Ok(p) => p,
        Err(e) => return Err(e),
    };
    let ghost pairs = add_pairs(specs@);
    assert forall|k: int| 0 <= k < parsed@.len() implies #[trigger] pairs[k] == (
        parsed@[k].key@,
        parsed@[k].version@,
    ) by {
        assert(spec_add_spec(specs@[k]@) is Ok);
    }
    let mut document = match parse_document(text) {
        Ok(d) => d,
        Err(e) => return Err(parse_failure(path, e.as_str())),
    };
    let ghost base = if toml_has_dependencies(document) {
        match toml_dependencies(document) {
            Some(m) => m,
            None => Map::empty(),
        }
    } else {
        Map::empty()
    };
    if !ensure_dependencies_table(&mut document) {
        return Err("`dependencies` exists but is not a table".to_owned());
    }
    assert(toml_dependencies(document) == Some(base));
    let mut i: usize = 0;
    assert(pairs.subrange(0, 0) =~= Seq::<(Seq<char>, Seq<char>)>::empty());
    while i < parsed.len()
        invariant
            i <= parsed@.len(),
            parsed@.len() == pairs.len(),
            forall|k: int| 0 <= k < parsed@.len() ==> #[trigger] pairs[k] == (
                parsed@[k].key@,
                parsed@[k].version@,
            ),
            toml_dependencies(document) == Some(insert_all(base, pairs.subrange(0, i as int))),
            toml_has_dependencies(document),
            toml_rest(document) == text_rest(text@),
        decreases parsed.len() - i,
    {
        assert(pairs.subrange(0, i + 1).drop_last() =~= pairs.subrange(0, i as int));
        assert(pairs.subrange(0, i + 1).last() == pairs[i as int]);
        set_dependency(&mut document, parsed[i].key.as_str(), parsed[i].version.as_str());
        i = i + 1;
    }
    assert(pairs.subrange(0, parsed@.len() as int) =~= pairs);
    let t = document_text(&document);
    assert(written(t@, true, insert_all(base, pairs), text_rest(text@)));
    Ok((t, parsed))
}

/// After adding, each added key holds a version, a key added last holds
/// its own version, and every other entry is as it was.
pub proof fn law_add_sets_versions(m: TomlDeps, pairs: Seq<(Seq<char>, Seq<char>)>)
    ensures
        forall|i: int|
            0 <= i < pairs.len() ==> insert_all(m, pairs).contains_key(#[trigger] pairs[i].0),
        pairs.len() > 0 ==> insert_all(m, pairs)[pairs.last().0] == Some(pairs.last().1),
        forall|k: Seq<char>|
            (forall|i: int| 0 <= i < pairs.len() ==> pairs[i].0 != k) ==> (#[trigger] insert_all(
                m,
                pairs,
            ).contains_key(k) == m.contains_key(k) && (m.contains_key(k) ==> insert_all(m, pairs)[k]
                == m[k])),
    decreases pairs.len(),
{
    if pairs.len() > 0 {
        let prev = pairs.drop_last();
        law_add_sets_versions(m, prev);
        assert forall|i: int| 0 <= i < pairs.len() implies insert_all(m, pairs).contains_key(
            #[trigger] pairs[i].0,
        ) by {
            if i < pairs.len() - 1 {
                assert(prev[i] == pairs[i]);
            }
        }
        assert forall|k: Seq<char>|
            (forall|i: int| 0 <= i < pairs.len() ==> pairs[i].0 != k) implies (#[trigger] insert_all(
            m,
            pairs,
        ).contains_key(k) == m.contains_key(k) && (m.contains_key(k) ==> insert_all(m, pairs)[k]
            == m[k])) by {
            assert(pairs[pairs.len() - 1].0 != k);
            assert forall|i: int| 0 <= i < prev.len() implies prev[i].0 != k by {
                assert(prev[i] == pairs[i]);
            }
        }
    }
}

/// After removing, no removed key is left and every other entry is as it
/// was.
pub proof fn law_remove_drops_keys(m: TomlDeps, keys: Seq<Seq<char>>)
    ensures
        forall|i: int| 0 <= i < keys.len() ==> !remove_all(m, keys).contains_key(#[trigger] keys[i]),
        forall|k: Seq<char>|
            !keys.contains(k) ==> (#[trigger] remove_all(m, keys).contains_key(k) == m.contains_key(k)
                && (m.contains_key(k) ==> remove_all(m, keys)[k] == m[k])),
    decreases keys.len(),
{
    if keys.len() > 0 {
        let prev = keys.drop_last();
        law_remove_drops_keys(m, prev);
        assert forall|i: int| 0 <= i < keys.len() implies !remove_all(m, keys).contains_key(
            #[trigger] keys[i],
        ) by {
            if i < keys.len() - 1 {
                assert(prev[i] == keys[i]);
            }
        }
        assert forall|k: Seq<char>| !keys.contains(k) implies (#[trigger] remove_all(
            m,
            keys,
        ).contains_key(k) == m.contains_key(k) && (m.contains_key(k) ==> remove_all(m, keys)[k]
            == m[k])) by {
            assert(keys[keys.len() - 1] != k);
            if prev.contains(k) {
                let j = choose|j: int| 0 <= j < prev.len() && prev[j] == k;
                assert(keys[j] == k);
            }
            assert(remove_all(m, prev).contains_key(k) == m.contains_key(k));
            assert(remove_all(m, keys) == remove_all(m, prev).remove(keys.last()));
        }
    }
}

/// Removing the keys just added gives the table back, when none of them
/// was in it before.
pub proof fn law_remove_undoes_add(m: TomlDeps, pairs: Seq<(Seq<char>, Seq<char>)>)
    requires
        forall|i: int| 0 <= i < pairs.len() ==> !m.contains_key(#[trigger] pairs[i].0),
    ensures
        remove_all(insert_all(m, pairs), pairs.map_values(|p: (Seq<char>, Seq<char>)| p.0)) == m,
{
    let keys = pairs.map_values(|p: (Seq<char>, Seq<char>)| p.0);
    let a = insert_all(m, pairs);
    law_add_sets_versions(m, pairs);
    law_remove_drops_keys(a, keys);
    let r = remove_all(a, keys);
    assert forall|k: Seq<char>| #[trigger] r.contains_key(k) == m.contains_key(k) && (m.contains_key(k)
        ==> r[k] == m[k]) by {
        if keys.contains(k) {
            let j = choose|j: int| 0 <= j < keys.len() && keys[j] == k;
            assert(pairs[j].0 == k);
            assert(!r.contains_key(keys[j]));
        } else {
            assert forall|i: int| 0 <= i < pairs.len() implies pairs[i].0 != k by {
                assert(keys[i] == pairs[i].0);
            }
        }
    }
    assert(r =~= m);
}

/// The first key among `keys` that the table lacks.
pub open spec fn first_missing(keys: Seq<Seq<char>>, table: TomlDeps, i: int) -> Option<Seq<char>>
    decreases keys.len() - i,
{
    if i < 0 || i >= keys.len() {
        None
    } else if !table.contains_key(keys[i]) {
        Some(keys[i])
    } else {
        first_missing(keys, table, i + 1)
    }
}

/// What removing does to the table a text has, or why it fails: a spec
/// that does not read, text that does not parse, no `[dependencies]`
/// table, or a key that the table lacks (then nothing is removed).
pub open spec fn spec_remove_from_text(text: Seq<char>, path: Seq<char>, specs: Seq<String>) -> Result<
    (bool, TomlDeps),
    Seq<char>,
> {
    match first_bad_remove_spec(specs, 0) {
        Some(m) => Err(m),
        None => match toml_parse(text) {
            Err(msg) => Err(parse_failure_message(path, msg)),
            Ok((h, d, _)) => match d {
                None => Err("`ax.toml` does not contain a `[dependencies]` table"@),
                Some(m) => match first_missing(remove_keys(specs), m, 0) {
                    Some(k) => Err("Dependency `"@ + k + "` is not present in `ax.toml`"@),
                    None => Ok((h, remove_all(m, remove_keys(specs)))),
                },
            },
        },
    }
}

/// Removes dependencies from the text of `ax.toml` read from `path`: the
/// new text, whose `[dependencies]` table is the old one without the
/// specs' keys, and the keys removed.
pub fn remove_dependencies_from_text(text: &str, path: &str, specs: &[String]) -> (r: Result<
    (String, Vec<String>),
    String,
>)
    ensures
        match spec_remove_from_text(text@, path@, specs@) {
            Err(m) => r matches Err(e) && e@ == m,
            Ok((h, table)) => r matches Ok((t, v)) && written(t@, h, table, text_rest(text@))
                && crate::text::views(v@)
                == remove_keys(specs@),
        },
{
    let parsed = match parse_remove_specs(specs) {
        Ok(p) => p,
        Err(e) => return Err(e),
    };
    let ghost keys = remove_keys(specs@);
    assert(crate::text::views(parsed@) =~= keys) by {
        assert forall|k: int| 0 <= k < parsed@.len() implies crate::text::views(parsed@)[k]
            == keys[k] by {
            assert(spec_remove_spec(specs@[k]@) is Ok);
        }
    }
    let mut document = match parse_document(text) {
        Ok(d) => d,
        Err(e) => return Err(parse_failure(path, e.as_str())),
    };
    if !has_dependencies_table(&document) {
        return Err("`ax.toml` does not contain a `[dependencies]` table".to_owned());
    }
    let ghost table = toml_dependencies(document)->0;
    let mut i: usize = 0;
    while i < parsed.len()
        invariant
            i <= parsed@.len(),
            crate::text::views(parsed@) == keys,
            keys == remove_keys(specs@),
            first_bad_remove_spec(specs@, 0) is None,
            toml_parse(text@) matches Ok((_, d, _)) && d == Some(table),
            toml_dependencies(document) == Some(table),
            first_missing(keys, table, 0) == first_missing(keys, table, i as int),
        decreases parsed.len() - i,
    {
        assert(keys[i as int] == parsed@[i as int]@);
        if !has_dependency(&document, parsed[i].as_str()) {
            let mut m = concat("Dependency `", parsed[i].as_str());
            push_str(&mut m, "` is not present in `ax.toml`");
            return Err(m);
        }
        i = i + 1;
    }
    assert(first_missing(keys, table, i as int) == None::<Seq<char>>);
    let ghost h = toml_has_dependencies(document);
    let mut i: usize = 0;
    assert(keys.subrange(0, 0) =~= Seq::<Seq<char>>::empty());
    while i < parsed.len()
        invariant
            i <= parsed@.len(),
            crate::text::views(parsed@) == keys,
            toml_dependencies(document) == Some(remove_all(table, keys.subrange(0, i as int))),
            toml_has_dependencies(document) == h,
            toml_rest(document) == text_rest(text@),
        decreases parsed.len() - i,
    {
        assert(keys.subrange(0, i + 1).drop_last() =~= keys.subrange(0, i as int));
        assert(keys.subrange(0, i + 1).last() == parsed@[i as int]@);
        remove_dependency(&mut document, parsed[i].as_str());
        i = i + 1;
    }
    assert(keys.subrange(0, parsed@.len() as int) =~= keys);
    let t = document_text(&document);
    assert(written(t@, h, remove_all(table, keys), text_rest(text@)));
    Ok((t, parsed))
}

/// `Item::as_table` on the top-level item `dependencies`: whether it is a table.
#[verifier::external_body]
fn has_dependencies_table(doc: &DocumentMut) -> (b: bool)
    ensures
        b == (toml_dependencies(*doc) is Some),
{
    doc.as_table().get("dependencies").and_then(toml_edit::Item::as_table).is_some()
}

} // verus!
