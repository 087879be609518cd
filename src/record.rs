use vstd::prelude::*;

verus! {

/// The names that may appear in a request or response payload.
#[derive(Clone, Copy, Debug, PartialEq, Eq, Structural)]
pub enum Key {
    Input,
    Output,
    Model,
    Device,
    Vocab,
    Format,
    Timestamps,
    FuzzyVocab,
    Verbose,
    Transcript,
    OutputPath,
    Source,
    Metrics,
}

impl Key {
    /// The wire name of the key.
    pub open spec fn spec_name(self) -> Seq<char> {
        match self {
            Key::Input => "input"@,
            Key::Output => "output"@,
            Key::Model => "model"@,
            Key::Device => "device"@,
            Key::Vocab => "vocab"@,
            Key::Format => "format"@,
            Key::Timestamps => "timestamps"@,
            Key::FuzzyVocab => "fuzzy_vocab"@,
            Key::Verbose => "verbose"@,
            Key::Transcript => "transcript"@,
            Key::OutputPath => "output_path"@,
            Key::Source => "source"@,
            Key::Metrics => "metrics"@,
        }
    }

    pub fn name(&self) -> (r: &'static str)
        ensures
            r@ == self.spec_name(),
    {
        match self {
            Key::Input => "input",
            Key::Output => "output",
            Key::Model => "model",
            Key::Device => "device",
            Key::Vocab => "vocab",
            Key::Format => "format",
            Key::Timestamps => "timestamps",
            Key::FuzzyVocab => "fuzzy_vocab",
            Key::Verbose => "verbose",
            Key::Transcript => "transcript",
            Key::OutputPath => "output_path",
            Key::Source => "source",
            Key::Metrics => "metrics",
        }
    }
}

/// One value of a structured payload, as far as the protocol looks into it:
/// strings, booleans and null are read; a nested object is carried but not
/// interpreted; anything else is of the wrong type for every field.
#[derive(Clone, Debug)]
pub enum Field {
    Text(String),
    Flag(bool),
    Null,
    Object,
    Other,
}

/// Mathematical model of a [`Field`].
pub enum FieldV {
    Text(Seq<char>),
    Flag(bool),
    Null,
    Object,
    Other,
}

impl View for Field {
    type V = FieldV;

    open spec fn view(&self) -> FieldV {
        match self {
            Field::Text(s) => FieldV::Text(s@),
            Field::Flag(b) => FieldV::Flag(*b),
            Field::Null => FieldV::Null,
            Field::Object => FieldV::Object,
            Field::Other => FieldV::Other,
        }
    }
}

/// A payload: the fields of one JSON object, in the order they were read.
pub type Record = Vec<(Key, Field)>;

/// Model of a payload.
pub open spec fn record_view(rec: Seq<(Key, Field)>) -> Seq<(Key, FieldV)> {
    rec.map_values(|e: (Key, Field)| (e.0, e.1@))
}

/// What a payload holds under one key.
pub enum Scan {
    Missing,
    Once(FieldV),
    Repeated,
}

/// The occurrences of `k` in `s`: none, exactly one (with its value), or several.
pub open spec fn scan(s: Seq<(Key, FieldV)>, k: Key) -> Scan
    decreases s.len(),
{
    if s.len() == 0 {
        Scan::Missing
    } else {
        let last = s.last();
        match scan(s.drop_last(), k) {
            Scan::Missing => if last.0 == k {
                Scan::Once(last.1)
            } else {
                Scan::Missing
            },
            Scan::Once(v) => if last.0 == k {
                Scan::Repeated
            } else {
                Scan::Once(v)
            },
            Scan::Repeated => Scan::Repeated,
        }
    }
}

/// A required string field.
pub open spec fn need_text(s: Seq<(Key, FieldV)>, k: Key) -> Option<Seq<char>> {
    match scan(s, k) {
        Scan::Once(FieldV::Text(t)) => Some(t),
        _ => None,
    }
}

/// A required boolean field.
pub open spec fn need_flag(s: Seq<(Key, FieldV)>, k: Key) -> Option<bool> {
    match scan(s, k) {
        Scan::Once(FieldV::Flag(b)) => Some(b),
        _ => None,
    }
}

/// An optional string field: absent or null reads as `None`; the outer
/// `None` means the field is malformed.
pub open spec fn opt_text(s: Seq<(Key, FieldV)>, k: Key) -> Option<Option<Seq<char>>> {
    match scan(s, k) {
        Scan::Missing => Some(None),
        Scan::Once(FieldV::Null) => Some(None),
        Scan::Once(FieldV::Text(t)) => Some(Some(t)),
        _ => None,
    }
}

/// An optional nested object: absent, null, or an object.
pub open spec fn opt_object_ok(s: Seq<(Key, FieldV)>, k: Key) -> bool {
    match scan(s, k) {
        Scan::Missing => true,
        Scan::Once(FieldV::Null) => true,
        Scan::Once(FieldV::Object) => true,
        _ => false,
    }
}

/// Where `k` occurs in a payload.
pub enum Found {
    Missing,
    At(usize),
    Repeated,
}

pub fn find_key(rec: &Record, k: Key) -> (r: Found)
    ensures
        match r {
            Found::Missing => scan(record_view(rec@), k) is Missing,
            Found::At(i) => i < rec@.len() && scan(record_view(rec@), k) == Scan::Once(
                rec@[i as int].1@,
            ),
            Found::Repeated => scan(record_view(rec@), k) is Repeated,
        },
{
    let mut found = Found::Missing;
    let mut i: usize = 0;
    while i < rec.len()
        invariant
            i <= rec@.len(),
            match found {
                Found::Missing => scan(record_view(rec@.subrange(0, i as int)), k) is Missing,
                Found::At(j) => j < i && scan(record_view(rec@.subrange(0, i as int)), k)
                    == Scan::Once(rec@[j as int].1@),
                Found::Repeated => scan(record_view(rec@.subrange(0, i as int)), k) is Repeated,
            },
        decreases rec@.len() - i,
    {
        let ghost pre = record_view(rec@.subrange(0, i as int));
        let ghost next = record_view(rec@.subrange(0, i as int + 1));
        assert(next.drop_last() =~= pre);
        assert(next.last() == (rec@[i as int].0, rec@[i as int].1@));
        if rec[i].0 == k {
            found = match found {
                Found::Missing => Found::At(i),
                _ => Found::Repeated,
            };
        }
        i = i + 1;
    }
    assert(rec@.subrange(0, rec@.len() as int) =~= rec@);
    found
}

/// Reads a required string field.
pub fn read_text(rec: &Record, k: Key) -> (r: Option<String>)
    ensures
        match r {
            Some(t) => need_text(record_view(rec@), k) == Some(t@),
            None => need_text(record_view(rec@), k) is None,
        },
{
    match find_key(rec, k) {
        Found::At(i) => match &rec[i].1 {
            Field::Text(t) => Some(t.clone()),
            _ => None,
        },
        _ => None,
    }
}

/// Reads a required boolean field.
pub fn read_flag(rec: &Record, k: Key) -> (r: Option<bool>)
    ensures
        r == need_flag(record_view(rec@), k),
{
    match find_key(rec, k) {
        Found::At(i) => match &rec[i].1 {
            Field::Flag(b) => Some(*b),
            _ => None,
        },
        _ => None,
    }
}

/// Reads an optional string field.
pub fn read_opt_text(rec: &Record, k: Key) -> (r: Option<Option<String>>)
    ensures
        match r {
            Some(Some(t)) => opt_text(record_view(rec@), k) == Some(Some(t@)),
            Some(None) => opt_text(record_view(rec@), k) == Some(None::<Seq<char>>),
            None => opt_text(record_view(rec@), k) is None,
        },
{
    match find_key(rec, k) {
        Found::Missing => Some(None),
        Found::At(i) => match &rec[i].1 {
            Field::Text(t) => Some(Some(t.clone())),
            Field::Null => Some(None),
            _ => None,
        },
        Found::Repeated => None,
    }
}

/// Checks an optional nested-object field.
pub fn check_opt_object(rec: &Record, k: Key) -> (r: bool)
    ensures
        r == opt_object_ok(record_view(rec@), k),
{
    match find_key(rec, k) {
        Found::Missing => true,
        Found::At(i) => match &rec[i].1 {
            Field::Null => true,
            Field::Object => true,
            _ => false,
        },
        Found::Repeated => false,
    }
}

} // verus!
