//! How a refusal reads in the log: a slug, and fields that name values.

use vstd::prelude::*;
use vstd::string::*;

verus! {

/// A log field: its name and its value.
pub type Field = (&'static str, String);

/// The texts of a list of fields.
pub open spec fn field_texts(fields: Seq<Field>) -> Seq<(Seq<char>, Seq<char>)> {
    fields.map_values(|f: Field| (f.0@, f.1@))
}

/// ` name=value` for each field.
pub open spec fn fields_line(fields: Seq<(Seq<char>, Seq<char>)>) -> Seq<char>
    decreases fields.len(),
{
    if fields.len() == 0 {
        Seq::empty()
    } else {
        fields_line(fields.drop_last()) + " "@ + fields.last().0 + "="@ + fields.last().1
    }
}

/// `reason=slug`, and then each field.
pub open spec fn decline_line(slug: Seq<char>, fields: Seq<(Seq<char>, Seq<char>)>) -> Seq<char> {
    "reason="@ + slug + fields_line(fields)
}

/// The line a refusal is logged with.
pub fn decline_text(slug: &str, fields: &Vec<Field>) -> (line: String)
    ensures
        line@ == decline_line(slug@, field_texts(fields@)),
{
    let mut line: String = String::new();
    line.append("reason=");
    line.append(slug);
    let mut i: usize = 0;
    let ghost texts = field_texts(fields@);
    assert(line@ =~= "reason="@ + slug@ + fields_line(texts.take(0)));
    while i < fields.len()
        invariant
            i <= fields@.len(),
            texts == field_texts(fields@),
            line@ == "reason="@ + slug@ + fields_line(texts.take(i as int)),
        decreases fields@.len() - i,
    {
        let ghost before = line@;
        line.append(" ");
        line.append(fields[i].0);
        line.append("=");
        line.append(fields[i].1.as_str());
        proof {
            let next = texts.take(i + 1);
            assert(next.drop_last() =~= texts.take(i as int));
            assert(next.last() == (fields@[i as int].0@, fields@[i as int].1@));
            assert(line@ =~= "reason="@ + slug@ + fields_line(next));
        }
        i += 1;
    }
    assert(texts.take(i as int) =~= texts);
    line
}

/// A decline line begins with its slug, and each field adds a space, its name, an
/// equals sign and its value.
pub proof fn law_a_decline_line_names_each_field(
    slug: Seq<char>,
    fields: Seq<(Seq<char>, Seq<char>)>,
    name: Seq<char>,
    value: Seq<char>,
)
    ensures
        decline_line(slug, Seq::empty()) == "reason="@ + slug,
        decline_line(slug, fields.push((name, value))) == decline_line(slug, fields) + " "@ + name
            + "="@ + value,
{
    assert(fields.push((name, value)).drop_last() =~= fields);
    assert("reason="@ + slug + Seq::<char>::empty() =~= "reason="@ + slug);
    assert(decline_line(slug, fields.push((name, value))) =~= decline_line(slug, fields) + " "@
        + name + "="@ + value);
}

} // verus!
