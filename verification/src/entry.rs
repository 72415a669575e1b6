//! Vocabulary entries and their rendering into a notification payload.

use vstd::prelude::*;
use vstd::string::StringExecFns;

verus! {

/// One vocabulary item: a required word and optional reading, meaning
/// and reference codes.
pub struct Entry {
    pub word: String,
    pub reading: Option<String>,
    pub meaning: Option<String>,
    pub codes: Option<String>,
}

/// The mathematical shape of an `Entry`: each field as a sequence of
/// characters.
pub struct EntryView {
    pub word: Seq<char>,
    pub reading: Option<Seq<char>>,
    pub meaning: Option<Seq<char>>,
    pub codes: Option<Seq<char>>,
}

impl EntryView {
    /// A well-formed entry has a non-empty word, and its optional
    /// fields, where present, are non-empty: a blank field is absent,
    /// never an empty string.
    pub open spec fn wf(self) -> bool {
        &&& self.word.len() > 0
        &&& (self.reading matches Some(r) ==> r.len() > 0)
        &&& (self.meaning matches Some(m) ==> m.len() > 0)
        &&& (self.codes matches Some(c) ==> c.len() > 0)
    }
}

impl View for Entry {
    type V = EntryView;

    open spec fn view(&self) -> EntryView {
        EntryView {
            word: self.word@,
            reading: match self.reading {
                Some(r) => Some(r@),
                None => None,
            },
            meaning: match self.meaning {
                Some(m) => Some(m@),
                None => None,
            },
            codes: match self.codes {
                Some(c) => Some(c@),
                None => None,
            },
        }
    }
}

/// The notification body of an entry: the reading, then the separator
/// `" — "` and the meaning where a fragment already stands before it
/// (just the meaning otherwise), then `" ("`, the codes and `")"` where
/// codes are present and non-empty.
pub open spec fn body_spec(e: EntryView) -> Seq<char> {
    let after_reading = match e.reading {
        Some(r) => r,
        None => Seq::<char>::empty(),
    };
    let after_meaning = match e.meaning {
        Some(m) => if after_reading.len() > 0 {
            after_reading + " — "@ + m
        } else {
            m
        },
        None => after_reading,
    };
    match e.codes {
        Some(c) => if c.len() > 0 {
            after_meaning + " ("@ + c + ")"@
        } else {
            after_meaning
        },
        None => after_meaning,
    }
}

/// Render one entry into the `(title, body)` pair handed to the
/// notification sink: the title is the word, the body is `body_spec`.
pub fn render(e: &Entry) -> (r: (String, String))
    ensures
        r.0@ == e@.word,
        r.1@ == body_spec(e@),
{
    let title = e.word.clone();
    let mut body = String::new();
    if let Some(reading) = &e.reading {
        body.append(reading.as_str());
    }
    if let Some(meaning) = &e.meaning {
        if !body.as_str().is_empty() {
            body.append(" — ");
        }
        body.append(meaning.as_str());
    }
    if let Some(codes) = &e.codes {
        if !codes.as_str().is_empty() {
            body.append(" (");
            body.append(codes.as_str());
            body.append(")");
        }
    }
    proof {
        assert(body@ =~= body_spec(e@));
    }
    (title, body)
}

/// An entry with only the word set renders to an empty body.
pub proof fn lemma_body_word_only(e: EntryView)
    requires
        e.reading is None,
        e.meaning is None,
        e.codes is None,
    ensures
        body_spec(e) == Seq::<char>::empty(),
{
}

/// With reading and meaning both present and codes absent, the body is
/// exactly the reading, the separator and the meaning: no leading or
/// trailing separator artifacts.
pub proof fn lemma_body_reading_meaning(e: EntryView)
    requires
        e.wf(),
        e.reading is Some,
        e.meaning is Some,
        e.codes is None,
    ensures
        body_spec(e) == e.reading->0 + " — "@ + e.meaning->0,
{
}

/// With meaning and codes present but no reading, the body is exactly
/// the meaning followed by the parenthesised codes: no leading
/// separator.
pub proof fn lemma_body_meaning_codes(e: EntryView)
    requires
        e.wf(),
        e.reading is None,
        e.meaning is Some,
        e.codes is Some,
    ensures
        body_spec(e) == e.meaning->0 + " ("@ + e.codes->0 + ")"@,
{
}

} // verus!
