//! Names of databases and collections, and the keys that they are looked up by.

use crate::text::{
    blank, contains_char, is_blank, is_space, lemma_leading_kept, lemma_trailing_kept, same_text,
    trim, trimmed,
};
use crate::types::{
    default_database, default_database_name, first_fault, reports_message, LogPoseError,
    ServiceError, ServiceErrorKind, ServiceErrorModel,
};
use vstd::prelude::*;
use vstd::string::*;

verus! {

/// What is wrong with a name that is to be one segment of a path, if anything.
pub open spec fn segment_fault(label: Seq<char>, value: Seq<char>) -> Option<Seq<char>> {
    if is_blank(value) {
        Some(label + " must not be empty"@)
    } else if value.contains('/') {
        Some(label + " must not contain '/'"@)
    } else if trimmed(value) == "."@ || trimmed(value) == ".."@ {
        Some(label + " must not be a relative path component"@)
    } else {
        None
    }
}

/// Validate a name that is to be one segment of a path.
pub fn validate_namespace_segment(label: &str, value: &str) -> (outcome: Result<(), LogPoseError>)
    ensures
        reports_message(outcome, segment_fault(label@, value@)),
{
    let mut message = label.to_owned();
    if blank(value) {
        message.append(" must not be empty");
        return Err(LogPoseError::Message(message));
    }
    if contains_char(value, '/') {
        message.append(" must not contain '/'");
        return Err(LogPoseError::Message(message));
    }
    let core = trim(value);
    if same_text(core, ".") || same_text(core, "..") {
        message.append(" must not be a relative path component");
        return Err(LogPoseError::Message(message));
    }
    Ok(())
}

/// A database, by its name.
#[derive(Debug, PartialEq, Eq)]
pub struct DatabaseRef {
    /// Name of the database.
    pub database_name: String,
}

impl DatabaseRef {
    /// Refer to a database.
    pub fn new(database_name: String) -> (reference: Self)
        ensures
            reference.database_name == database_name,
    {
        DatabaseRef { database_name }
    }

    /// The key that the database is looked up by: its name.
    pub fn lookup_name(&self) -> (key: String)
        ensures
            key@ == self.database_name@,
    {
        self.database_name.clone()
    }
}

/// A collection, by its database and its name.
#[derive(Debug, PartialEq, Eq)]
pub struct CollectionRef {
    /// Name of the database.
    pub database_name: String,
    /// Name of the collection inside the database.
    pub collection_name: String,
}

/// A collection, by its database and its name, as a model.
#[verifier::ext_equal]
pub struct CollectionRefModel {
    pub database_name: Seq<char>,
    pub collection_name: Seq<char>,
}

impl CollectionRefModel {
    /// What is wrong with the reference, if anything.
    pub open spec fn fault(self) -> Option<Seq<char>> {
        first_fault(
            segment_fault("database_name"@, self.database_name),
            segment_fault("collection_name"@, self.collection_name),
        )
    }

    /// The key that the collection is looked up by.
    pub open spec fn key(self) -> Seq<char> {
        self.database_name + "/"@ + self.collection_name
    }
}

impl View for CollectionRef {
    type V = CollectionRefModel;

    open spec fn view(&self) -> CollectionRefModel {
        CollectionRefModel {
            database_name: self.database_name@,
            collection_name: self.collection_name@,
        }
    }
}

impl Clone for CollectionRef {
    fn clone(&self) -> (copy: Self)
        ensures
            copy == *self,
    {
        CollectionRef {
            database_name: self.database_name.clone(),
            collection_name: self.collection_name.clone(),
        }
    }
}

impl CollectionRef {
    /// Refer to a collection of a database.
    pub fn new(database_name: String, collection_name: String) -> (reference: Self)
        ensures
            reference.database_name == database_name,
            reference.collection_name == collection_name,
    {
        CollectionRef { database_name, collection_name }
    }

    /// Refer to a collection of the default database.
    pub fn new_default(collection_name: String) -> (reference: Self)
        ensures
            reference.database_name@ == default_database(),
            reference.collection_name == collection_name,
    {
        CollectionRef { database_name: default_database_name().to_owned(), collection_name }
    }

    /// Validate both names.
    pub fn validate(&self) -> (outcome: Result<(), LogPoseError>)
        ensures
            reports_message(outcome, self@.fault()),
    {
        match validate_namespace_segment("database_name", &self.database_name) {
            Err(error) => Err(error),
            Ok(_) => validate_namespace_segment("collection_name", &self.collection_name),
        }
    }

    /// The key that the collection is looked up by: both names around a slash.
    pub fn lookup_name(&self) -> (key: String)
        ensures
            key@ == self@.key(),
    {
        let mut key = self.database_name.clone();
        key.append("/");
        key.append(&self.collection_name);
        key
    }
}

/// The pieces of a text between the occurrences of a separator.
pub open spec fn pieces(text: Seq<char>, separator: char) -> Seq<Seq<char>>
    decreases text.len(),
{
    if text.len() == 0 {
        seq![Seq::<char>::empty()]
    } else {
        let head = pieces(text.drop_last(), separator);
        if text.last() == separator {
            head.push(Seq::<char>::empty())
        } else {
            head.drop_last().push(head.last().push(text.last()))
        }
    }
}

/// The texts of a list, as their models.
pub open spec fn texts_model(texts: Seq<&str>) -> Seq<Seq<char>> {
    texts.map_values(|text: &str| text@)
}

/// The pieces of a text between the occurrences of a separator.
pub fn split_on(text: &str, separator: char) -> (parts: Vec<&str>)
    ensures
        texts_model(parts@) == pieces(text@, separator),
{
    let chars = crate::text::chars_of(text);
    let mut parts: Vec<&str> = Vec::new();
    let mut start: usize = 0;
    let mut index: usize = 0;
    assert(text@.take(0) =~= Seq::<char>::empty());
    assert(texts_model(parts@).push(text@.subrange(0, 0)) =~= pieces(text@.take(0), separator));
    while index < chars.len()
        invariant
            start <= index <= chars@.len(),
            chars@ == text@,
            texts_model(parts@).push(text@.subrange(start as int, index as int)) == pieces(
                text@.take(index as int),
                separator,
            ),
        decreases chars@.len() - index,
    {
        let ghost before = parts@;
        let ghost head = text@.take(index as int);
        let ghost longer = text@.take(index + 1);
        assert(longer.drop_last() =~= head);
        assert(longer.last() == text@[index as int]);
        if chars[index] == separator {
            parts.push(text.substring_char(start, index));
            start = index + 1;
            proof {
                assert(texts_model(parts@) =~= pieces(head, separator));
                assert(text@.subrange(start as int, index + 1) =~= Seq::<char>::empty());
            }
        } else {
            proof {
                let open_piece = text@.subrange(start as int, index as int);
                assert(pieces(head, separator).drop_last() =~= texts_model(parts@));
                assert(open_piece.push(text@[index as int]) =~= text@.subrange(
                    start as int,
                    index + 1,
                ));
            }
        }
        index = index + 1;
    }
    parts.push(text.substring_char(start, index));
    proof {
        assert(text@.take(index as int) =~= text@);
        assert(texts_model(parts@) =~= pieces(text@, separator));
    }
    parts
}

proof fn lemma_pieces_without_separator(text: Seq<char>, separator: char)
    requires
        !text.contains(separator),
    ensures
        pieces(text, separator) =~= seq![text],
    decreases text.len(),
{
    if text.len() == 0 {
        assert(text =~= Seq::<char>::empty());
    } else {
        let head = text.drop_last();
        assert(!head.contains(separator)) by {
            if head.contains(separator) {
                let i = choose|i: int| 0 <= i < head.len() && head[i] == separator;
                assert(text[i] == separator);
            }
        }
        assert(text.last() != separator);
        lemma_pieces_without_separator(head, separator);
        assert(head.push(text.last()) =~= text);
    }
}

proof fn lemma_pieces_of_two(left: Seq<char>, right: Seq<char>, separator: char)
    requires
        !left.contains(separator),
        !right.contains(separator),
    ensures
        pieces(left.push(separator) + right, separator) =~= seq![left, right],
    decreases right.len(),
{
    let whole = left.push(separator) + right;
    if right.len() == 0 {
        assert(whole.drop_last() =~= left);
        lemma_pieces_without_separator(left, separator);
        assert(right =~= Seq::<char>::empty());
    } else {
        let shorter = right.drop_last();
        assert(!shorter.contains(separator)) by {
            if shorter.contains(separator) {
                let i = choose|i: int| 0 <= i < shorter.len() && shorter[i] == separator;
                assert(right[i] == separator);
            }
        }
        assert(right.last() != separator);
        assert(whole.drop_last() =~= left.push(separator) + shorter);
        lemma_pieces_of_two(left, shorter, separator);
        assert(shorter.push(right.last()) =~= right);
    }
}

proof fn lemma_key_pieces(reference: CollectionRefModel)
    requires
        !reference.database_name.contains('/'),
        !reference.collection_name.contains('/'),
    ensures
        pieces(reference.key(), '/') == seq![reference.database_name, reference.collection_name],
{
    reveal_strlit("/");
    assert(reference.key() =~= reference.database_name.push('/') + reference.collection_name);
    lemma_pieces_of_two(reference.database_name, reference.collection_name, '/');
}

/// What a collection reference given as text stands for, before its names are checked.
pub open spec fn reference_of_text(text: Seq<char>) -> Option<CollectionRefModel> {
    let parts = pieces(trimmed(text), '/');
    if parts.len() == 1 {
        Some(
            CollectionRefModel {
                database_name: default_database(),
                collection_name: parts[0],
            },
        )
    } else if parts.len() == 2 {
        Some(CollectionRefModel { database_name: parts[0], collection_name: parts[1] })
    } else {
        None
    }
}

/// What parsing a collection reference gives.
pub open spec fn parsed_reference(text: Seq<char>) -> Result<CollectionRefModel, ServiceErrorModel> {
    match reference_of_text(text) {
        None => Err(
            ServiceErrorModel {
                kind: ServiceErrorKind::InvalidArgument,
                message: "unsupported collection reference '"@ + text
                    + "': expected 'collection' or 'database/collection'"@,
            },
        ),
        Some(reference) => match reference.fault() {
            Some(fault) => Err(
                ServiceErrorModel { kind: ServiceErrorKind::InvalidArgument, message: fault },
            ),
            None => Ok(reference),
        },
    }
}

/// The outcome of a lookup of names, as its model.
pub open spec fn reference_outcome(
    outcome: Result<CollectionRef, ServiceError>,
) -> Result<CollectionRefModel, ServiceErrorModel> {
    match outcome {
        Ok(reference) => Ok(reference@),
        Err(error) => Err(error@),
    }
}

/// Parse `collection` or `database/collection`.
pub fn parse_collection_reference(collection_name: &str) -> (outcome: Result<
    CollectionRef,
    ServiceError,
>)
    ensures
        reference_outcome(outcome) == parsed_reference(collection_name@),
{
    let parts = split_on(trim(collection_name), '/');
    let ghost models = texts_model(parts@);
    let reference = if parts.len() == 1 {
        assert(parts@[0]@ == models[0]);
        CollectionRef::new_default(parts[0].to_owned())
    } else if parts.len() == 2 {
        assert(parts@[0]@ == models[0] && parts@[1]@ == models[1]);
        CollectionRef::new(parts[0].to_owned(), parts[1].to_owned())
    } else {
        let mut message = "unsupported collection reference '".to_owned();
        message.append(collection_name);
        message.append("': expected 'collection' or 'database/collection'");
        return Err(ServiceError::InvalidArgument(message));
    };
    match reference.validate() {
        Err(error) => Err(ServiceError::InvalidArgument(error.to_text())),
        Ok(_) => Ok(reference),
    }
}

/// The database and collection that a lookup key stands for.
pub open spec fn key_parts(key: Seq<char>) -> CollectionRefModel {
    let parts = pieces(key, '/');
    if parts.len() == 2 && !is_blank(parts[0]) && !is_blank(parts[1]) {
        CollectionRefModel { database_name: parts[0], collection_name: parts[1] }
    } else {
        CollectionRefModel { database_name: default_database(), collection_name: key }
    }
}

/// Split a lookup key into the names of its database and its collection.
pub fn split_collection_lookup_key(value: &str) -> (names: (String, String))
    ensures
        names.0@ == key_parts(value@).database_name,
        names.1@ == key_parts(value@).collection_name,
{
    let parts = split_on(value, '/');
    let ghost models = texts_model(parts@);
    if parts.len() == 2 {
        assert(parts@[0]@ == models[0] && parts@[1]@ == models[1]);
        if !blank(parts[0]) && !blank(parts[1]) {
            return (parts[0].to_owned(), parts[1].to_owned());
        }
    }
    (default_database_name().to_owned(), value.to_owned())
}

/// The name of a database, or of the default database where none is given.
pub open spec fn database_or_default(name: Seq<char>) -> Seq<char> {
    if is_blank(name) {
        default_database()
    } else {
        name
    }
}

/// The name of a database, or of the default database where none is given.
pub fn default_database_if_blank(value: String) -> (name: String)
    ensures
        name@ == database_or_default(value@),
{
    if blank(&value) {
        default_database_name().to_owned()
    } else {
        value
    }
}

/// A name that a reply gives, or the one that was asked for where it gives none.
pub open spec fn name_or(name: Seq<char>, fallback: Seq<char>) -> Seq<char> {
    if is_blank(name) {
        fallback
    } else {
        name
    }
}

/// A name that a reply gives, or the one that was asked for where it gives none.
pub fn name_or_fallback(name: String, fallback: &str) -> (result: String)
    ensures
        result@ == name_or(name@, fallback@),
{
    if blank(&name) {
        fallback.to_owned()
    } else {
        name
    }
}

/// The key of a collection whose names are valid splits into those names again.
pub proof fn law_key_splits_into_its_names(reference: CollectionRefModel)
    requires
        reference.fault() is None,
    ensures
        key_parts(reference.key()) == reference,
{
    lemma_key_pieces(reference);
}

/// Different collections with valid names have different keys.
pub proof fn law_keys_tell_collections_apart(left: CollectionRefModel, right: CollectionRefModel)
    requires
        left.fault() is None,
        right.fault() is None,
        left.key() == right.key(),
    ensures
        left == right,
{
    law_key_splits_into_its_names(left);
    law_key_splits_into_its_names(right);
}

/// Parsing the key of a collection with valid names gives the collection back, as long as the
/// key has no whitespace at its ends.
pub proof fn law_key_parses_back(reference: CollectionRefModel)
    requires
        reference.fault() is None,
        !is_space(reference.database_name[0]),
        !is_space(reference.collection_name.last()),
    ensures
        parsed_reference(reference.key()) == Ok::<CollectionRefModel, ServiceErrorModel>(reference),
{
    lemma_key_pieces(reference);
    let key = reference.key();
    assert(key[0] == reference.database_name[0]) by {
        assert(reference.database_name.len() > 0) by {
            if reference.database_name.len() == 0 {
                assert(is_blank(reference.database_name));
            }
        }
    }
    assert(key.last() == reference.collection_name.last()) by {
        assert(reference.collection_name.len() > 0) by {
            if reference.collection_name.len() == 0 {
                assert(is_blank(reference.collection_name));
            }
        }
    }
    lemma_leading_kept(key);
    lemma_trailing_kept(key);
}

/// What parsing accepts always has two valid names.
pub proof fn law_parsed_references_are_valid(text: Seq<char>)
    ensures
        parsed_reference(text) matches Ok(reference) ==> reference.fault() is None,
{
}

/// Filling in the default database a second time changes nothing.
pub proof fn law_default_database_settles(name: Seq<char>)
    ensures
        database_or_default(database_or_default(name)) == database_or_default(name),
        !is_blank(database_or_default(name)),
{
    reveal_strlit("default");
    assert(!is_space(default_database()[0]));
}

/// A name can be a segment of a path exactly when it holds something but whitespace, no slash, and
/// is more than one or two dots between whitespace.
pub proof fn law_segments(label: Seq<char>, value: Seq<char>)
    ensures
        segment_fault(label, value) is None <==> (exists|i: int|
            0 <= i < value.len() && !is_space(#[trigger] value[i])) && (forall|i: int|
            0 <= i < value.len() ==> #[trigger] value[i] != '/') && trimmed(value) != "."@
            && trimmed(value) != ".."@,
        is_blank(value) ==> segment_fault(label, value) == Some(label + " must not be empty"@),
        !is_blank(value) && value.contains('/') ==> segment_fault(label, value) == Some(
            label + " must not contain '/'"@,
        ),
{
    if value.contains('/') {
        let i = choose|i: int| 0 <= i < value.len() && value[i] == '/';
        assert(value[i] == '/');
    }
    if !(forall|i: int| 0 <= i < value.len() ==> #[trigger] value[i] != '/') {
        let i = choose|i: int| 0 <= i < value.len() && #[trigger] value[i] == '/';
        assert(value.contains(value[i]));
    }
}

/// The key of a collection is the name of its database, one slash, and its own name.
pub proof fn law_keys_join_names_by_a_slash(reference: CollectionRefModel)
    ensures
        ({
            let database = reference.database_name;
            let collection = reference.collection_name;
            let key = reference.key();
            &&& key.len() == database.len() + 1 + collection.len()
            &&& key.take(database.len() as int) == database
            &&& key[database.len() as int] == '/'
            &&& key.skip((database.len() + 1) as int) == collection
        }),
{
    reveal_strlit("/");
    assert(reference.key().take(reference.database_name.len() as int) =~= reference.database_name);
    assert(reference.key().skip((reference.database_name.len() + 1) as int) =~= reference.collection_name);
}

/// How often a text holds a character.
pub open spec fn times(text: Seq<char>, wanted: char) -> nat {
    text.filter(|c: char| c == wanted).len()
}

proof fn lemma_pieces_count(text: Seq<char>, separator: char)
    ensures
        pieces(text, separator).len() == times(text, separator) + 1,
    decreases text.len(),
{
    reveal(Seq::filter);
    if text.len() > 0 {
        lemma_pieces_count(text.drop_last(), separator);
    }
}

/// A name alone stands for the collection of that name in the default database.
pub proof fn law_plain_names_are_in_the_default_database(name: Seq<char>)
    requires
        segment_fault("collection_name"@, name) is None,
        !is_space(name[0]),
        !is_space(name.last()),
    ensures
        parsed_reference(name) matches Ok(reference) && reference.database_name == "default"@
            && reference.collection_name == name,
{
    lemma_pieces_without_separator(name, '/');
    lemma_leading_kept(name);
    lemma_trailing_kept(name);
    lemma_default_is_a_segment();
}

proof fn lemma_default_is_a_segment()
    ensures
        segment_fault("database_name"@, default_database()) is None,
{
    reveal_strlit("default");
    reveal_strlit(".");
    reveal_strlit("..");
    let name = default_database();
    assert(!is_space(name[0]));
    assert(!is_space(name.last()));
    lemma_leading_kept(name);
    lemma_trailing_kept(name);
    assert(trimmed(name) == name);
    assert("."@.len() == 1 && ".."@.len() == 2 && name.len() == 7);
}

/// A reference with more than one slash is refused, and so is every reference that is not valid; a
/// refusal is that of a malformed request.
pub proof fn law_references_have_one_slash_at_most(text: Seq<char>)
    ensures
        times(trimmed(text), '/') > 1 ==> parsed_reference(text) is Err,
        parsed_reference(text) matches Err(error) ==> error.kind
            == ServiceErrorKind::InvalidArgument,
        parsed_reference(text) matches Ok(reference) ==> times(trimmed(text), '/') == 0
            && reference.database_name == "default"@ && reference.collection_name == trimmed(text)
            || times(trimmed(text), '/') == 1 && reference.key() == trimmed(text),
{
    let inner = trimmed(text);
    lemma_pieces_count(inner, '/');
    lemma_pieces_join(inner, '/');
    if pieces(inner, '/').len() == 2 {
        let parts = pieces(inner, '/');
        reveal_strlit("/");
        assert(parts[0] + "/"@ + parts[1] =~= parts[0].push('/') + parts[1]);
    }
}

proof fn lemma_pieces_join(text: Seq<char>, separator: char)
    ensures
        pieces(text, separator).len() == 1 ==> pieces(text, separator)[0] == text,
        pieces(text, separator).len() == 2 ==> pieces(text, separator)[0].push(separator) + pieces(
            text,
            separator,
        )[1] == text,
        pieces(text, separator).len() >= 1,
    decreases text.len(),
{
    if text.len() == 0 {
        assert(text =~= Seq::<char>::empty());
    } else {
        let shorter = text.drop_last();
        lemma_pieces_join(shorter, separator);
        let head = pieces(shorter, separator);
        let parts = pieces(text, separator);
        assert(shorter.push(text.last()) =~= text);
        if text.last() == separator {
            if parts.len() == 2 {
                assert(parts[0] == head[0]);
                assert(parts[0].push(separator) + parts[1] =~= text);
            }
        } else if parts.len() == 2 {
            assert(parts[0] == head[0]);
            assert(parts[1] == head[1].push(text.last()));
            assert(parts[0].push(separator) + parts[1] =~= (head[0].push(separator)
                + head[1]).push(text.last()));
        }
    }
}

/// A key with one slash between two names stands for them; any other stands for a collection of the
/// default database, by the whole key.
pub proof fn law_keys_split_at_one_slash(key: Seq<char>)
    ensures
        times(key, '/') != 1 ==> key_parts(key).database_name == "default"@
            && key_parts(key).collection_name == key,
        times(key, '/') == 1 ==> key_parts(key).key() == key || key_parts(key).database_name
            == "default"@ && key_parts(key).collection_name == key,
{
    lemma_pieces_count(key, '/');
    lemma_pieces_join(key, '/');
    if pieces(key, '/').len() == 2 {
        let parts = pieces(key, '/');
        reveal_strlit("/");
        assert(parts[0] + "/"@ + parts[1] =~= parts[0].push('/') + parts[1]);
    }
}

/// A blank name of a database stands for the default one, and a blank name in a reply for the one
/// that was asked for; any other stands for itself.
pub proof fn law_blank_names_are_filled_in(name: Seq<char>, fallback: Seq<char>)
    ensures
        (forall|i: int| 0 <= i < name.len() ==> is_space(#[trigger] name[i])) ==> database_or_default(
            name,
        ) == "default"@ && name_or(name, fallback) == fallback,
        (exists|i: int| 0 <= i < name.len() && !is_space(#[trigger] name[i]))
            ==> database_or_default(name) == name && name_or(name, fallback) == name,
{
}

/// A name that would lead elsewhere in a path is refused as such.
pub proof fn law_relative_names_are_refused(label: Seq<char>, value: Seq<char>)
    requires
        !is_blank(value),
        !value.contains('/'),
        trimmed(value) == "."@ || trimmed(value) == ".."@,
    ensures
        segment_fault(label, value) == Some(label + " must not be a relative path component"@),
{
}

/// What is wrong with the database of a reference is said before what is wrong with the
/// collection.
pub proof fn law_databases_are_looked_at_first(reference: CollectionRefModel)
    ensures
        segment_fault("database_name"@, reference.database_name) is Some ==> reference.fault()
            == segment_fault("database_name"@, reference.database_name),
        segment_fault("database_name"@, reference.database_name) is None ==> reference.fault()
            == segment_fault("collection_name"@, reference.collection_name),
{
}

/// A reference with more than one slash is quoted as it was given; what is wrong with one of the
/// names of another is said as of the names. References of valid names are accepted.
pub proof fn law_unsupported_references_are_named(text: Seq<char>)
    ensures
        times(trimmed(text), '/') > 1 ==> parsed_reference(text) == Err::<
            CollectionRefModel,
            ServiceErrorModel,
        >(
            (ServiceErrorModel {
                kind: ServiceErrorKind::InvalidArgument,
                message: "unsupported collection reference '"@ + text
                    + "': expected 'collection' or 'database/collection'"@,
            }),
        ),
        times(trimmed(text), '/') == 0 ==> (match segment_fault(
            "collection_name"@,
            trimmed(text),
        ) {
            Some(fault) => parsed_reference(text) matches Err(error) && error.message == fault,
            None => parsed_reference(text) is Ok,
        }),
{
    let inner = trimmed(text);
    lemma_pieces_count(inner, '/');
    lemma_pieces_join(inner, '/');
    lemma_default_is_a_segment();
}

} // verus!
