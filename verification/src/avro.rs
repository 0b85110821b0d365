use vstd::prelude::*;
use avro_rs::Schema as AvroSchema;
use crate::db::query::{inner_view, last_match, last_match_below};

verus! {

/// `avro_rs::Schema`, carried through as it is.
#[verifier::external_type_specification]
#[verifier::external_body]
pub struct ExAvroSchema(AvroSchema);

/// One field of a record: its name and the shape of its type.
#[derive(Debug)]
pub struct Field {
    pub name: String,
    pub shape: Shape,
}

/// What of a schema decides which of its parts a comparison meets: where it
/// is a union, a map, an array or a record, and of these the parts.
#[derive(Debug)]
pub enum Shape {
    Union(Vec<Shape>),
    MapOf(Box<Shape>),
    ArrayOf(Box<Shape>),
    Record(Vec<Field>),
    /// Any other type; a comparison does not look into it.
    Other,
}

/// The shape of the schema that `avro_rs::Schema::parse_str` makes of the
/// text; none where the text does not parse.
pub uninterp spec fn avro_shape(text: Seq<char>) -> Option<Shape>;

/// Whether `avro_rs` parses the text, and parses again what
/// `serde_json::to_value` writes of the schema.
pub uninterp spec fn avro_writes_back(text: Seq<char>) -> bool;

/// What `avro_rs::Schema::fingerprint`, taken with SHA-256, prints for the
/// schema that the text parses to: the digest of the schema's parsing
/// canonical form, in lower-case hexadecimal.
pub uninterp spec fn avro_fingerprint(text: Seq<char>) -> Seq<char>;

/// The fingerprint of a text: that of the schema that it parses to, where
/// the schema can be written and parsed again, and none otherwise.
pub open spec fn digest_of(text: Seq<char>) -> Option<Seq<char>> {
    if avro_writes_back(text) {
        Some(avro_fingerprint(text))
    } else {
        None
    }
}

/// What `avro_rs::schema_compatibility::SchemaCompatibility::can_read` answers
/// for the schemas that the two texts parse to: whether data written with the
/// first can be read with the second.
pub uninterp spec fn avro_can_read(writer: Seq<char>, reader: Seq<char>) -> bool;

/// The fields that carry the given name.
pub open spec fn named_as(name: Seq<char>) -> spec_fn(Field) -> bool {
    |field: Field| field.name@ == name
}

/// Whether a comparison that starts at this pair has a union on the writer's
/// side that meets a map or an array on the reader's side on one of its
/// ways. The comparison goes from a pair of unions to every pair of their
/// variants, from maps and arrays to what they hold, and from a record that
/// is read to each of its fields with the last field of that name that was
/// written; a pair of any other kind it settles on the spot.
pub open spec fn trap_ahead(writer: Shape, reader: Shape) -> bool
    decreases writer, reader,
{
    match writer {
        Shape::Union(variants) => match reader {
            Shape::MapOf(_) => true,
            Shape::ArrayOf(_) => true,
            Shape::Union(_) => exists|i: int|
                0 <= i < variants@.len() && trap_ahead(#[trigger] variants@[i], reader),
            _ => false,
        },
        Shape::MapOf(values) => match reader {
            Shape::Union(readers) => exists|j: int|
                0 <= j < readers@.len() && trap_ahead(writer, #[trigger] readers@[j]),
            Shape::MapOf(read) => trap_ahead(*values, *read),
            _ => false,
        },
        Shape::ArrayOf(items) => match reader {
            Shape::Union(readers) => exists|j: int|
                0 <= j < readers@.len() && trap_ahead(writer, #[trigger] readers@[j]),
            Shape::ArrayOf(read) => trap_ahead(*items, *read),
            _ => false,
        },
        Shape::Record(fields) => match reader {
            Shape::Union(readers) => exists|j: int|
                0 <= j < readers@.len() && trap_ahead(writer, #[trigger] readers@[j]),
            Shape::Record(read) => exists|j: int|
                0 <= j < read@.len() && trap_at(fields@, #[trigger] read@[j]),
            _ => false,
        },
        Shape::Other => match reader {
            Shape::Union(readers) => exists|j: int|
                0 <= j < readers@.len() && trap_ahead(writer, #[trigger] readers@[j]),
            _ => false,
        },
    }
}

/// Whether the comparison of a field that is read with the last field of
/// its name among those that were written has such a pair on one of its
/// ways. A field that was not written is not compared.
pub open spec fn trap_at(written: Seq<Field>, read: Field) -> bool
    decreases written, read,
{
    match last_match(written, named_as(read.name@)) {
        Some(i) => 0 <= i < written.len() && trap_ahead(written[i].shape, read.shape),
        None => false,
    }
}

/// Whether the two texts are schemas that `avro_rs` can be asked to compare:
/// both parse, and no way of the comparison has a pair that it cannot take.
pub open spec fn comparable(writer: Seq<char>, reader: Seq<char>) -> bool {
    match (avro_shape(writer), avro_shape(reader)) {
        (Some(written), Some(read)) => !trap_ahead(written, read),
        _ => false,
    }
}

/// Whether the reader's schema can read what the writer's schema wrote.
/// There is no answer where one of the texts does not parse. Where both
/// parse, the answer is the one of `avro_rs`, and "no" for a pair that it
/// cannot be asked to compare.
///
/// On such a pair `avro_rs` answers "no" wherever it returns. It comes to
/// the pair that it cannot take unless it has stopped before, and it stops
/// before only with a "no": at a field of a record or a variant of a written
/// union that does not match. A union that is read does not change this: it
/// holds at most one variant of each kind, and the writer matches no variant
/// of another kind than its own.
pub open spec fn reading(writer: Seq<char>, reader: Seq<char>) -> Option<bool> {
    match (avro_shape(writer), avro_shape(reader)) {
        (Some(written), Some(read)) => Some(
            !trap_ahead(written, read) && avro_can_read(writer, reader),
        ),
        _ => None,
    }
}

/// The shape of a schema of `avro_rs`, variant by variant.
///
/// Trusted: nothing is claimed of it here; `parsed_shape` names what it
/// makes of a parsed text.
#[verifier::external_body]
fn shape_of(schema: &AvroSchema) -> Shape {
    match schema {
        AvroSchema::Union(inner) => Shape::Union(inner.variants().iter().map(shape_of).collect()),
        AvroSchema::Map(values) => Shape::MapOf(Box::new(shape_of(values))),
        AvroSchema::Array(items) => Shape::ArrayOf(Box::new(shape_of(items))),
        AvroSchema::Record { fields, .. } => Shape::Record(
            fields.iter().map(|f| Field { name: f.name.clone(), shape: shape_of(&f.schema) }).collect(),
        ),
        _ => Shape::Other,
    }
}

/// Parses the text with `avro_rs::Schema::parse_str` and gives the shape of
/// the schema.
///
/// Trusted: whether there is a shape, and the shape, depend on the text
/// alone. The shape has a union, a map, an array or a record exactly where
/// the schema has one, with the same parts in the same order, and the fields
/// of a record under their names.
#[verifier::external_body]
pub(crate) fn parsed_shape(text: &str) -> (shape: Option<Shape>)
    ensures
        shape == avro_shape(text@),
{
    let schema = AvroSchema::parse_str(text).ok()?;
    Some(shape_of(&schema))
}

/// Parses the text with `avro_rs::Schema::parse_str`, writes the schema out
/// with `serde_json::to_value` and parses that with `avro_rs::Schema::parse`.
///
/// Trusted: whether all three succeed depends on the text alone.
#[verifier::external_body]
pub(crate) fn writes_back(text: &str) -> (yes: bool)
    ensures
        yes == avro_writes_back(text@),
{
    match AvroSchema::parse_str(text) {
        Ok(schema) => match serde_json::to_value(&schema) {
            Ok(written) => AvroSchema::parse(&written).is_ok(),
            Err(_) => false,
        },
        Err(_) => false,
    }
}

/// Parses the text with `avro_rs::Schema::parse_str` and prints the schema's
/// `fingerprint` under SHA-256.
///
/// The canonical form that `fingerprint` builds writes the size of every
/// `fixed` type as a signed 64-bit number and gives up on one that does not
/// fit. Such a size does not parse again once it is written out, so the text
/// must be one that writes back.
///
/// Trusted: there is a result, since the text parses, and it depends on the
/// text alone. Nothing is claimed of the digest's letters.
#[verifier::external_body]
pub(crate) fn fingerprint_of(text: &str) -> (digest: Option<String>)
    requires
        avro_writes_back(text@),
    ensures
        inner_view(digest) == Some(avro_fingerprint(text@)),
{
    let schema = AvroSchema::parse_str(text).ok()?;
    Some(format!("{}", schema.fingerprint::<sha2::Sha256>()))
}

/// Parses both texts with `avro_rs::Schema::parse_str` and asks
/// `SchemaCompatibility::can_read` whether the reader's schema can read what
/// the writer's schema wrote.
///
/// The crate's comparison takes a writer that is a union for settled before
/// it looks at the reader, and then expects a writer of the reader's kind
/// where the reader is a map or an array; on such a pair it does not return.
/// It comes to a pair only on the ways that `trap_ahead` follows, so the
/// texts that it is called with must be comparable.
///
/// Trusted: there is an answer, since both texts parse, and it depends on
/// the two texts alone. (The crate guards its recursion by a set of node
/// addresses; on the trees that parsing builds no pair of nodes is met
/// twice, so the guard never changes the answer.)
#[verifier::external_body]
pub(crate) fn can_read(writer: &str, reader: &str) -> (answer: Option<bool>)
    requires
        comparable(writer@, reader@),
    ensures
        answer == Some(avro_can_read(writer@, reader@)),
{
    let writers_schema = AvroSchema::parse_str(writer).ok()?;
    let readers_schema = AvroSchema::parse_str(reader).ok()?;
    Some(
        avro_rs::schema_compatibility::SchemaCompatibility::can_read(
            &writers_schema,
            &readers_schema,
        ),
    )
}

/// Index of the last field of the given name.
fn last_named(fields: &Vec<Field>, name: &String) -> (at: Option<usize>)
    ensures
        match at {
            Some(i) => i < fields.len() && last_match(fields@, named_as(name@)) == Some(i as int),
            None => last_match(fields@, named_as(name@)).is_none(),
        },
{
    let mut i: usize = fields.len();
    while i > 0
        invariant
            i <= fields.len(),
            last_match(fields@, named_as(name@)) == last_match_below(
                fields@,
                named_as(name@),
                i as int,
            ),
        decreases i,
    {
        i -= 1;
        if fields[i].name == *name {
            return Some(i);
        }
    }
    None
}

/// Whether a comparison that starts at this pair has a union on the writer's
/// side that meets a map or an array on the reader's side on one of its
/// ways.
#[verifier::loop_isolation(false)]
pub fn may_trap(writer: &Shape, reader: &Shape) -> (yes: bool)
    ensures
        yes == trap_ahead(*writer, *reader),
    decreases *writer, *reader,
{
    match reader {
        Shape::Union(readers) => match writer {
            Shape::Union(variants) => {
                let mut i: usize = 0;
                while i < variants.len()
                    invariant
                        i <= variants.len(),
                        *writer == Shape::Union(*variants),
                        *reader == Shape::Union(*readers),
                        forall|k: int| 0 <= k < i ==> !trap_ahead(#[trigger] variants@[k], *reader),
                    decreases variants.len() - i,
                {
                    proof {
                        assert(decreases_to!(*variants => variants@));
                        assert(decreases_to!(variants@ => variants@[i as int]));
                    }
                    if may_trap(&variants[i], reader) {
                        assert(trap_ahead(variants@[i as int], *reader));
                        return true;
                    }
                    i += 1;
                }
                false
            },
            _ => {
                let mut j: usize = 0;
                while j < readers.len()
                    invariant
                        j <= readers.len(),
                        !(*writer is Union),
                        *reader == Shape::Union(*readers),
                        forall|k: int| 0 <= k < j ==> !trap_ahead(*writer, #[trigger] readers@[k]),
                    decreases readers.len() - j,
                {
                    proof {
                        assert(decreases_to!(*readers => readers@));
                        assert(decreases_to!(readers@ => readers@[j as int]));
                    }
                    if may_trap(writer, &readers[j]) {
                        assert(trap_ahead(*writer, readers@[j as int]));
                        return true;
                    }
                    j += 1;
                }
                false
            },
        },
        Shape::MapOf(read) => match writer {
            Shape::Union(_) => true,
            Shape::MapOf(values) => may_trap(values, read),
            _ => false,
        },
        Shape::ArrayOf(read) => match writer {
            Shape::Union(_) => true,
            Shape::ArrayOf(items) => may_trap(items, read),
            _ => false,
        },
        Shape::Record(read) => match writer {
            Shape::Record(fields) => {
                let mut j: usize = 0;
                while j < read.len()
                    invariant
                        j <= read.len(),
                        *writer == Shape::Record(*fields),
                        *reader == Shape::Record(*read),
                        forall|b: int| 0 <= b < j ==> !trap_at(fields@, #[trigger] read@[b]),
                    decreases read.len() - j,
                {
                    match last_named(fields, &read[j].name) {
                        Some(i) => {
                            proof {
                                assert(decreases_to!(*fields => fields@));
                                assert(decreases_to!(fields@ => fields@[i as int]));
                                assert(decreases_to!(fields@[i as int] => fields@[i as int].shape));
                            }
                            if may_trap(&fields[i].shape, &read[j].shape) {
                                assert(trap_at(fields@, read@[j as int]));
                                return true;
                            }
                        },
                        None => {},
                    }
                    j += 1;
                }
                false
            },
            _ => false,
        },
        Shape::Other => false,
    }
}

} // verus!
