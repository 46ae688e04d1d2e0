//! The role classifier and the inference of the LYS property of a line.

use crate::dialogue::{DialogueView, ParsedDialogue};
use crate::text::{chars_of, first_token, first_token_of, spells};
use vstd::prelude::*;
use vstd::string::*;

verus! {

/// No alignment set.
pub const LYS_PROPERTY_UNSET: usize = 0;

/// Aligned left.
pub const LYS_PROPERTY_LEFT: usize = 1;

/// Aligned right.
pub const LYS_PROPERTY_RIGHT: usize = 2;

/// No background vocal, aligned left.
pub const LYS_PROPERTY_NO_BACK_LEFT: usize = 4;

/// No background vocal, aligned right.
pub const LYS_PROPERTY_NO_BACK_RIGHT: usize = 5;

/// Background vocal, alignment not set.
pub const LYS_PROPERTY_BACK_UNSET: usize = 6;

/// Background vocal, aligned left.
pub const LYS_PROPERTY_BACK_LEFT: usize = 7;

/// Background vocal, aligned right.
pub const LYS_PROPERTY_BACK_RIGHT: usize = 8;

/// What the role tag of a line says of who sings it.
#[derive(PartialEq, Eq, Debug, Clone, Copy, Structural)]
pub enum AssNameCategory {
    /// The primary singer, or no role tag at all.
    LeftV1,
    /// The second singer of a duet.
    RightV2,
    /// A background vocal.
    Background,
    /// A role tag that is none of the known ones.
    Other,
}

/// The category of a role tag, and whether the tag calls for a warning. A
/// missing tag, or one of white space alone, is the primary singer. Else the
/// first token of the tag decides, compared as it is written; a token that
/// is no keyword is `Other`, with a warning.
pub open spec fn category_of(name: Option<Seq<char>>) -> (AssNameCategory, bool) {
    match name {
        None => (AssNameCategory::LeftV1, false),
        Some(tag) => {
            let token = first_token(tag);
            if token.len() == 0 {
                (AssNameCategory::LeftV1, false)
            } else if token == "左"@ || token == "v1"@ || token == "合"@ || token == "v1000"@ {
                (AssNameCategory::LeftV1, false)
            } else if token == "右"@ || token == "v2"@ || token == "x-duet"@ || token
                == "x-anti"@ {
                (AssNameCategory::RightV2, false)
            } else if token == "背"@ || token == "x-bg"@ {
                (AssNameCategory::Background, false)
            } else {
                (AssNameCategory::Other, true)
            }
        },
    }
}

/// The LYS property of a line of category `current` that follows a line of
/// category `previous`, when the property given to the line before was
/// `last`.
pub open spec fn lys_property(current: AssNameCategory, previous: AssNameCategory, last: usize) -> usize {
    match current {
        AssNameCategory::LeftV1 => LYS_PROPERTY_NO_BACK_LEFT,
        AssNameCategory::RightV2 => LYS_PROPERTY_NO_BACK_RIGHT,
        AssNameCategory::Background => match previous {
            AssNameCategory::LeftV1 => LYS_PROPERTY_BACK_LEFT,
            AssNameCategory::RightV2 => LYS_PROPERTY_BACK_RIGHT,
            AssNameCategory::Background => last,
            AssNameCategory::Other => LYS_PROPERTY_BACK_UNSET,
        },
        AssNameCategory::Other => LYS_PROPERTY_UNSET,
    }
}

/// The category of the line before: `Other` where there is none.
pub open spec fn previous_category(previous: Option<DialogueView>) -> AssNameCategory {
    match previous {
        Some(d) => category_of(d.name).0,
        None => AssNameCategory::Other,
    }
}

/// The properties given to a run of lines of the categories `categories`,
/// each line seeing the one before it and the property given to that one;
/// the first line has no line before it and sees `LYS_PROPERTY_UNSET`.
pub open spec fn lys_properties(categories: Seq<AssNameCategory>) -> Seq<usize>
    decreases categories.len(),
{
    if categories.len() == 0 {
        Seq::empty()
    } else {
        let before = lys_properties(categories.drop_last());
        let previous = if categories.len() >= 2 {
            categories[categories.len() - 2]
        } else {
            AssNameCategory::Other
        };
        let last = if before.len() > 0 {
            before.last()
        } else {
            LYS_PROPERTY_UNSET
        };
        before.push(lys_property(categories.last(), previous, last))
    }
}

/// One property is given to each line, and the properties of the first
/// lines do not depend on the lines behind them.
pub proof fn lemma_lys_properties_prefix(categories: Seq<AssNameCategory>, n: int)
    requires
        0 <= n <= categories.len(),
    ensures
        lys_properties(categories).len() == categories.len(),
        lys_properties(categories.take(n)) == lys_properties(categories).take(n),
    decreases categories.len(),
{
    if categories.len() == 0 {
        assert(categories.take(n) =~= categories);
        assert(lys_properties(categories).take(n) =~= lys_properties(categories));
    } else {
        lemma_lys_properties_prefix(categories.drop_last(), categories.len() - 1);
        if n == categories.len() {
            assert(categories.take(n) =~= categories);
            assert(lys_properties(categories).take(n) =~= lys_properties(categories));
        } else {
            lemma_lys_properties_prefix(categories.drop_last(), n);
            assert(categories.drop_last().take(n) =~= categories.take(n));
            assert(lys_properties(categories.drop_last()).take(n) =~= lys_properties(
                categories,
            ).take(n));
        }
    }
}

/// The property of line `i` of a run, from its neighbours.
pub proof fn lemma_lys_property_at(categories: Seq<AssNameCategory>, i: int)
    requires
        0 <= i < categories.len(),
    ensures
        lys_properties(categories).len() == categories.len(),
        lys_properties(categories)[i] == lys_property(
            categories[i],
            if i > 0 {
                categories[i - 1]
            } else {
                AssNameCategory::Other
            },
            if i > 0 {
                lys_properties(categories)[i - 1]
            } else {
                LYS_PROPERTY_UNSET
            },
        ),
{
    let head = categories.take(i + 1);
    lemma_lys_properties_prefix(categories, i + 1);
    lemma_lys_properties_prefix(categories, i);
    lemma_lys_properties_prefix(head, i);
    assert(head.drop_last() =~= categories.take(i));
    assert(head.last() == categories[i]);
    assert(lys_properties(head) == lys_properties(categories).take(i + 1));
    assert(lys_properties(head)[i] == lys_properties(categories)[i]);
    if i > 0 {
        assert(head[i - 1] == categories[i - 1]);
        assert(lys_properties(head.drop_last()).last() == lys_properties(categories)[i - 1]);
    }
}

/// A background line that follows a background line is given the property
/// of the line before it.
pub proof fn lemma_background_inherits(categories: Seq<AssNameCategory>, i: int)
    requires
        0 < i < categories.len(),
        categories[i] == AssNameCategory::Background,
        categories[i - 1] == AssNameCategory::Background,
    ensures
        lys_properties(categories).len() == categories.len(),
        lys_properties(categories)[i] == lys_properties(categories)[i - 1],
{
    lemma_lys_property_at(categories, i);
}

/// Every line of a run of background lines is given the property of the
/// first of them, which the line before the run decides: background-left
/// behind the primary singer, background-right behind the second singer,
/// background-unset behind an unknown role.
pub proof fn lemma_background_run(categories: Seq<AssNameCategory>, first: int, i: int)
    requires
        0 < first <= i < categories.len(),
        categories[first - 1] != AssNameCategory::Background,
        forall|j: int| first <= j <= i ==> categories[j] == AssNameCategory::Background,
    ensures
        lys_properties(categories).len() == categories.len(),
        lys_properties(categories)[i] == lys_property(
            AssNameCategory::Background,
            categories[first - 1],
            LYS_PROPERTY_UNSET,
        ),
    decreases i - first,
{
    lemma_lys_property_at(categories, i);
    if i > first {
        lemma_background_run(categories, first, i - 1);
    }
}

/// Sorts a role tag into its category, and says whether the tag calls for
/// a warning: it does when it is none of the known ones.
pub fn map_ass_name_to_category(name_opt: Option<&str>) -> (r: (AssNameCategory, bool))
    ensures
        r == category_of(
            match name_opt {
                Some(name) => Some(name@),
                None => None,
            },
        ),
        r.1 == (r.0 == AssNameCategory::Other),
{
    let name = match name_opt {
        Some(name) => name,
        None => {
            return (AssNameCategory::LeftV1, false);
        },
    };
    let cs = chars_of(name);
    let token = first_token_of(cs.as_slice());
    if token.len() == 0 {
        return (AssNameCategory::LeftV1, false);
    }
    if spells(token, "左") || spells(token, "v1") || spells(token, "合") || spells(token, "v1000") {
        return (AssNameCategory::LeftV1, false);
    }
    if spells(token, "右") || spells(token, "v2") || spells(token, "x-duet") || spells(
        token,
        "x-anti",
    ) {
        return (AssNameCategory::RightV2, false);
    }
    if spells(token, "背") || spells(token, "x-bg") {
        return (AssNameCategory::Background, false);
    }
    (AssNameCategory::Other, true)
}

/// The role tag of a record, as `map_ass_name_to_category` takes it.
fn role_of(d: &ParsedDialogue) -> (name: Option<&str>)
    ensures
        match name {
            Some(name) => d@.name == Some(name@),
            None => d@.name is None,
        },
{
    match &d.name {
        Some(name) => Some(name.as_str()),
        None => None,
    }
}

/// The LYS property of a line, from its own role tag, the role tag of the
/// line before it and the property that was given to that line; and whether
/// the line's own role tag calls for a warning.
pub fn calculate_lys_property(
    current_dialogue: &ParsedDialogue,
    previous_dialogue: Option<&ParsedDialogue>,
    last_calculated_property: usize,
) -> (r: (usize, bool))
    ensures
        r.0 == lys_property(
            category_of(current_dialogue@.name).0,
            previous_category(
                match previous_dialogue {
                    Some(d) => Some(d@),
                    None => None,
                },
            ),
            last_calculated_property,
        ),
        r.1 == category_of(current_dialogue@.name).1,
{
    let (current_category, map_warned) = map_ass_name_to_category(role_of(current_dialogue));
    let property = match current_category {
        AssNameCategory::LeftV1 => LYS_PROPERTY_NO_BACK_LEFT,
        AssNameCategory::RightV2 => LYS_PROPERTY_NO_BACK_RIGHT,
        AssNameCategory::Background => {
            let previous_category = match previous_dialogue {
                Some(previous) => map_ass_name_to_category(role_of(previous)).0,
                None => AssNameCategory::Other,
            };
            match previous_category {
                AssNameCategory::LeftV1 => LYS_PROPERTY_BACK_LEFT,
                AssNameCategory::RightV2 => LYS_PROPERTY_BACK_RIGHT,
                AssNameCategory::Background => last_calculated_property,
                AssNameCategory::Other => LYS_PROPERTY_BACK_UNSET,
            }
        },
        AssNameCategory::Other => LYS_PROPERTY_UNSET,
    };
    (property, map_warned)
}

} // verus!
