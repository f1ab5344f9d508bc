//! The preferences file: one `key=value` per line.
//!
//! Reading is lenient: lines without an equals sign and unknown keys are
//! passed over, whitespace around keys and values is dropped, and of two
//! lines for one key the later wins. What is missing keeps its default.

use crate::text::{
    chars_of, find, first_occurrence, same_text, split, split_on, text_of_range, trim, trimmed,
};
use crate::types::{Prefs, PrefsView};
use vstd::prelude::*;

verus! {

/// The preferences of a first run.
pub open spec fn default_prefs() -> PrefsView {
    PrefsView { theme: "neon"@, active_tab: "monitor"@ }
}

/// The preferences after one line of the file is read.
pub open spec fn apply_line(prefs: PrefsView, line: Seq<char>) -> PrefsView {
    match first_occurrence(line, seq!['=']) {
        Some(i) => {
            let key = trimmed(line.take(i));
            let value = trimmed(line.skip(i + 1));
            if key == "theme"@ {
                PrefsView { theme: value, ..prefs }
            } else if key == "active_tab"@ {
                PrefsView { active_tab: value, ..prefs }
            } else {
                prefs
            }
        },
        None => prefs,
    }
}

/// The preferences after the lines are read in order.
pub open spec fn apply_lines(prefs: PrefsView, lines: Seq<Seq<char>>) -> PrefsView
    decreases lines.len(),
{
    if lines.len() == 0 {
        prefs
    } else {
        apply_line(apply_lines(prefs, lines.drop_last()), lines.last())
    }
}

/// The preferences that a file with the content `content` holds.
pub open spec fn parsed_prefs(content: Seq<char>) -> PrefsView {
    apply_lines(default_prefs(), split_on(content, '\n'))
}

/// Reads one line of the file into `prefs`.
fn read_line(prefs: &mut Prefs, line: &Vec<char>)
    ensures
        final(prefs)@ == apply_line(old(prefs)@, line@),
{
    let mut eq: Vec<char> = Vec::new();
    eq.push('=');
    assert(eq@ =~= seq!['=']);
    match find(line, &eq) {
        Some(i) => {
            let key = trim(text_of_range(line, 0, i).as_str());
            let value = trim(text_of_range(line, i + 1, line.len()).as_str());
            if same_text(key.as_str(), "theme") {
                prefs.theme = value;
            } else if same_text(key.as_str(), "active_tab") {
                prefs.active_tab = value;
            }
        },
        None => {},
    }
}

/// Reads the preferences out of the content of the preferences file.
pub fn parse_prefs(content: &str) -> (prefs: Prefs)
    ensures
        prefs@ == parsed_prefs(content@),
{
    let lines = split(&chars_of(content), '\n');
    let ghost all = lines.deep_view();
    let mut prefs = Prefs::default();
    let mut i: usize = 0;
    assert(all.take(0) =~= Seq::<Seq<char>>::empty());
    while i < lines.len()
        invariant
            all == lines.deep_view(),
            i <= lines.len(),
            prefs@ == apply_lines(default_prefs(), all.take(i as int)),
        decreases lines.len() - i,
    {
        proof {
            assert(all.take(i + 1).drop_last() == all.take(i as int));
            assert(all.take(i + 1).last() =~= lines@[i as int]@);
        }
        read_line(&mut prefs, &lines[i]);
        i = i + 1;
    }
    assert(all.take(lines.len() as int) == all);
    prefs
}

/// The preferences at start: those of the preferences file where its content
/// could be read, the defaults where it could not.
pub fn load_initial_prefs(content: Option<String>) -> (prefs: Prefs)
    ensures
        prefs@ == match content {
            Some(c) => parsed_prefs(c@),
            None => default_prefs(),
        },
{
    match content {
        Some(c) => parse_prefs(c.as_str()),
        None => Prefs::default(),
    }
}

/// The content of the preferences file for `prefs`.
pub open spec fn rendered_prefs(prefs: PrefsView) -> Seq<char> {
    "theme="@ + prefs.theme + "\nactive_tab="@ + prefs.active_tab + "\n"@
}

/// The content to write to the preferences file for `prefs`.
pub fn render_prefs(prefs: &Prefs) -> (content: String)
    ensures
        content@ == rendered_prefs(prefs@),
{
    let mut out = chars_of("theme=");
    let mut theme = chars_of(prefs.theme.as_str());
    let mut key = chars_of("\nactive_tab=");
    let mut tab = chars_of(prefs.active_tab.as_str());
    let mut end = chars_of("\n");
    out.append(&mut theme);
    out.append(&mut key);
    out.append(&mut tab);
    out.append(&mut end);
    crate::text::text_of(&out)
}

} // verus!
