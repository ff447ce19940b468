//! The pieces of the usage text.
use crate::option_def::{alias_fault, OptionDef};
use crate::schema::{arguments_part, help_label, help_line, slot_of, synopsis_item, Slot};
use crate::strings::{
    concatenated, count_prefix, join, joined, pad_left, push_char, sort_by_key, sorted_by_key,
    texts, to_chars,
};
use vstd::prelude::*;

verus! {

/// Where an entry stands in the synopsis, and how it is written there.
pub fn classify(od: &OptionDef) -> (r: (Slot, String))
    requires
        od@.aliases.len() > 0 ==> alias_fault(od@.aliases[0]) is None,
    ensures
        r.0 == slot_of(od@),
        r.1@ == synopsis_item(od@),
{
    if od.aliases.len() == 0 {
        return (Slot::Absent, String::new());
    }
    let first = od.aliases[0].as_str();
    assert(first@ == od@.aliases[0]);
    match &od.value_name {
        Some(value_name) => {
            if od.default_value.is_none() {
                let mut item = String::from_str(first);
                item.append(" <");
                item.append(value_name.as_str());
                item.append(">");
                (Slot::Required, item)
            } else {
                let mut item = String::from_str("[");
                item.append(first);
                item.append(" <");
                item.append(value_name.as_str());
                item.append(">]");
                (Slot::Optional, item)
            }
        },
        None => {
            let chars = to_chars(first);
            let dash = to_chars("-");
            let dashes: usize = count_prefix(&chars, &dash);
            if dashes >= 2 {
                (Slot::Optional, String::from_str(first))
            } else {
                let mut item = String::new();
                push_char(&mut item, chars[chars.len() - 1]);
                assert(item@ =~= seq![od@.aliases[0].last()]);
                (Slot::Flag, item)
            }
        },
    }
}

/// What the help line of an entry shows before the colon.
pub fn label(od: &OptionDef) -> (s: String)
    ensures
        s@ == help_label(od@),
{
    let mut s = join(&od.aliases, ", ");
    match &od.value_name {
        Some(value_name) => {
            s.append(" <");
            s.append(value_name.as_str());
            s.append(">");
        },
        None => {},
    }
    s
}

/// The help line of an entry, given its label and the width of the
/// column of labels.
pub fn line(od: &OptionDef, label: &str, width: usize) -> (s: String)
    requires
        label@ == help_label(od@),
    ensures
        s@ == help_line(od@, width as nat),
{
    let mut s = String::from_str("\n");
    let padded = pad_left(label, width);
    s.append(padded.as_str());
    if od.valid_values.len() > 0 {
        s.append(" : [");
        let values = join(&od.valid_values, ",");
        s.append(values.as_str());
        s.append("]. ");
    } else {
        s.append(" : ");
    }
    s.append(od.description.as_str());
    s
}

/// The cluster of the short flags in the synopsis.
pub fn flags_cluster(flags: &Vec<String>) -> (s: String)
    ensures
        s@ == (if flags@.len() > 0 {
            " [-"@ + concatenated(sorted_by_key(texts(flags@), ""@)) + "]"@
        } else {
            Seq::empty()
        }),
{
    if flags.len() > 0 {
        let sorted = sort_by_key(flags, "");
        let mut s = String::from_str(" [-");
        let cluster = join(&sorted, "");
        proof {
            reveal_strlit("");
            assert(""@ =~= Seq::<char>::empty());
        }
        s.append(cluster.as_str());
        s.append("]");
        s
    } else {
        String::new()
    }
}

/// A list of synopsis items, sorted by their keys and set apart by
/// blanks.
pub fn sorted_list(items: &Vec<String>, strip: &str) -> (s: String)
    ensures
        s@ == (if items@.len() > 0 {
            " "@ + joined(sorted_by_key(texts(items@), strip@), " "@)
        } else {
            Seq::empty()
        }),
{
    if items.len() > 0 {
        let sorted = sort_by_key(items, strip);
        let mut s = String::from_str(" ");
        let list = join(&sorted, " ");
        s.append(list.as_str());
        s
    } else {
        String::new()
    }
}

/// The names of the positional arguments in the synopsis.
pub fn argument_list(names: &Vec<String>) -> (s: String)
    ensures
        s@ == arguments_part(texts(names@)),
{
    if names.len() > 0 {
        let mut s = String::from_str(" <");
        let list = join(names, "> <");
        s.append(list.as_str());
        s.append(">");
        s
    } else {
        String::new()
    }
}

} // verus!
