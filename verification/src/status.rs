//! The version-control status of one path, how several of them add up, and
//! how a status is shown behind a name.

use crate::palette;
use crate::palette::{paint, painted};
use crate::text::{decimal, join, join_with, push_decimal, string_texts};
use vstd::prelude::*;
use vstd::string::*;

verus! {

/// What version control reports of a path: the lines added and deleted,
/// where they are counted, and whether the path is changed or untracked.
#[derive(Clone, Copy, Debug, PartialEq, Eq, Structural)]
pub struct GitStatus {
    pub added: Option<u64>,
    pub deleted: Option<u64>,
    pub dirty: bool,
    pub untracked: bool,
}

/// The sum of two counts that may be absent: absent if both are, else the
/// sum of those that are present.
pub open spec fn opt_total(a: Option<nat>, b: Option<nat>) -> Option<nat> {
    match (a, b) {
        (Some(x), Some(y)) => Some(x + y),
        (Some(x), None) => Some(x),
        (None, Some(y)) => Some(y),
        (None, None) => None,
    }
}

/// A count that may be absent, as a number without bound.
pub open spec fn count_of(a: Option<u64>) -> Option<nat> {
    match a {
        Some(x) => Some(x as nat),
        None => None,
    }
}

/// Adds two counts that may be absent.
pub fn sum_opts(a: Option<u64>, b: Option<u64>) -> (sum: Option<u64>)
    requires
        a is Some && b is Some ==> a->0 + b->0 <= u64::MAX,
    ensures
        count_of(sum) == opt_total(count_of(a), count_of(b)),
{
    match (a, b) {
        (Some(x), Some(y)) => Some(x + y),
        (Some(x), None) => Some(x),
        (None, Some(y)) => Some(y),
        (None, None) => None,
    }
}

/// Whether the status reports nothing: neither a change nor an untracked path.
pub open spec fn is_clean(status: GitStatus) -> bool {
    !status.dirty && !status.untracked
}

/// The marks that count the lines of a status, in order: "+?" for an
/// untracked path without a count of added lines, the added lines behind a
/// plus sign, the deleted lines behind a minus sign.
pub open spec fn count_marks(status: GitStatus) -> Seq<Seq<char>> {
    (if status.untracked && status.added is None {
        seq!["+?"@]
    } else {
        Seq::<Seq<char>>::empty()
    }) + (match status.added {
        Some(a) => seq!["+"@ + decimal(a as nat)],
        None => Seq::<Seq<char>>::empty(),
    }) + (match status.deleted {
        Some(d) => seq!["-"@ + decimal(d as nat)],
        None => Seq::<Seq<char>>::empty(),
    })
}

/// The same marks, each in its color: green for what was added, red for
/// what was deleted.
pub open spec fn colored_count_marks(status: GitStatus) -> Seq<Seq<char>> {
    (if status.untracked && status.added is None {
        seq![painted("+?"@, palette::GIT_ADDED@)]
    } else {
        Seq::<Seq<char>>::empty()
    }) + (match status.added {
        Some(a) => seq![painted("+"@ + decimal(a as nat), palette::GIT_ADDED@)],
        None => Seq::<Seq<char>>::empty(),
    }) + (match status.deleted {
        Some(d) => seq![painted("-"@ + decimal(d as nat), palette::GIT_REMOVED@)],
        None => Seq::<Seq<char>>::empty(),
    })
}

/// The marks of a status that is not clean: those that count its lines,
/// or the one word "dirty" where there are none.
pub open spec fn plain_marks(status: GitStatus) -> Seq<Seq<char>> {
    if count_marks(status).len() == 0 {
        seq!["dirty"@]
    } else {
        count_marks(status)
    }
}

/// The same marks in color.
pub open spec fn colored_marks(status: GitStatus) -> Seq<Seq<char>> {
    if colored_count_marks(status).len() == 0 {
        seq![painted("dirty"@, palette::GIT_DIRTY@)]
    } else {
        colored_count_marks(status)
    }
}

/// The plain suffix of a status: empty for a clean one; else its marks,
/// separated by spaces and in parentheses.
pub open spec fn plain_suffix(status: GitStatus) -> Seq<char> {
    if is_clean(status) {
        Seq::<char>::empty()
    } else {
        "("@ + join_with(plain_marks(status), ' ') + ")"@
    }
}

/// The colored suffix of a status: the label "(clean)" in a neutral color
/// for a clean one; else its marks in color, separated by spaces and in
/// parentheses.
pub open spec fn colored_suffix(status: GitStatus) -> Seq<char> {
    if is_clean(status) {
        painted("(clean)"@, palette::GIT_CLEAN@)
    } else {
        "("@ + join_with(colored_marks(status), ' ') + ")"@
    }
}

fn signed_count(sign: &str, count: u64) -> (mark: String)
    ensures
        mark@ == sign@ + decimal(count as nat),
{
    let mut mark = String::from_str(sign);
    push_decimal(&mut mark, count);
    mark
}

fn in_parentheses(parts: &Vec<String>) -> (text: String)
    ensures
        text@ == "("@ + join_with(string_texts(parts@), ' ') + ")"@,
{
    let mut text = String::from_str("(");
    let inner = join(parts, ' ');
    text.append(inner.as_str());
    text.append(")");
    text
}

/// The suffix that shows `status` behind a name, plain and colored.
pub fn format_git(status: &GitStatus) -> (suffix: Option<(String, String)>)
    ensures
        match suffix {
            Some((plain, colored)) => plain@ == plain_suffix(*status) && colored@ == colored_suffix(
                *status,
            ),
            None => false,
        },
{
    if !status.dirty && !status.untracked {
        return Some((String::new(), paint("(clean)", palette::GIT_CLEAN)));
    }
    let mut plain_parts: Vec<String> = Vec::new();
    let mut color_parts: Vec<String> = Vec::new();
    if status.untracked && status.added.is_none() {
        plain_parts.push(String::from_str("+?"));
        color_parts.push(paint("+?", palette::GIT_ADDED));
    }
    assert(string_texts(plain_parts@) =~= if status.untracked && status.added is None {
        seq!["+?"@]
    } else {
        Seq::<Seq<char>>::empty()
    });
    assert(string_texts(color_parts@) =~= if status.untracked && status.added is None {
        seq![painted("+?"@, palette::GIT_ADDED@)]
    } else {
        Seq::<Seq<char>>::empty()
    });
    let ghost plain_first = string_texts(plain_parts@);
    let ghost color_first = string_texts(color_parts@);
    if let Some(a) = status.added {
        let mark = signed_count("+", a);
        color_parts.push(paint(mark.as_str(), palette::GIT_ADDED));
        plain_parts.push(mark);
    }
    assert(string_texts(plain_parts@) =~= plain_first + (match status.added {
        Some(a) => seq!["+"@ + decimal(a as nat)],
        None => Seq::<Seq<char>>::empty(),
    }));
    assert(string_texts(color_parts@) =~= color_first + (match status.added {
        Some(a) => seq![painted("+"@ + decimal(a as nat), palette::GIT_ADDED@)],
        None => Seq::<Seq<char>>::empty(),
    }));
    let ghost plain_second = string_texts(plain_parts@);
    let ghost color_second = string_texts(color_parts@);
    if let Some(d) = status.deleted {
        let mark = signed_count("-", d);
        color_parts.push(paint(mark.as_str(), palette::GIT_REMOVED));
        plain_parts.push(mark);
    }
    assert(string_texts(plain_parts@) =~= plain_second + (match status.deleted {
        Some(d) => seq!["-"@ + decimal(d as nat)],
        None => Seq::<Seq<char>>::empty(),
    }));
    assert(string_texts(color_parts@) =~= color_second + (match status.deleted {
        Some(d) => seq![painted("-"@ + decimal(d as nat), palette::GIT_REMOVED@)],
        None => Seq::<Seq<char>>::empty(),
    }));
    assert(string_texts(plain_parts@) == count_marks(*status));
    assert(string_texts(color_parts@) == colored_count_marks(*status));
    if plain_parts.len() == 0 {
        plain_parts.push(String::from_str("dirty"));
        color_parts.push(paint("dirty", palette::GIT_DIRTY));
        assert(string_texts(plain_parts@) =~= seq!["dirty"@]);
        assert(string_texts(color_parts@) =~= seq![painted("dirty"@, palette::GIT_DIRTY@)]);
    }
    let plain = in_parentheses(&plain_parts);
    let colored = in_parentheses(&color_parts);
    Some((plain, colored))
}

} // verus!
