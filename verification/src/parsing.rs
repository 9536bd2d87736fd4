//! The script grammar and its parser.
//!
//! A script is a sequence of sections.  Each section is a `title:` header,
//! a `---` marker, one or more body lines, and a closing `===` marker.
//! Body lines are, by leading syntax:
//!
//! - `<<set $name to true>>` or `<<set $name to false>>` — assignment;
//! - `<<jump Title>>` — unconditional transfer;
//! - `<<name arg ...>>` — external command invocation;
//! - `-> text` optionally ending in `<<if $name == true>>` (or `!=` /
//!   `false`), each immediately followed by its own `<<jump Title>>` line;
//!   a run of such pairs forms one option block spoken by `Player`;
//! - plain dialog text, with an optional `Speaker:` prefix (the colon,
//!   when present, must precede any tag's) and optional trailing
//!   `#name:value` tags — dialog.
//!
//! Lines are trimmed and blank lines are skipped; every line is classified
//! by these forms, and anything that fits none of them is a parse error
//! naming the offending line.  The grammar is given here as deterministic
//! specification functions, and the executable parser is proved to return
//! exactly what they describe.

use vstd::prelude::*;

use crate::components::{Condition, ConditionType, CondV, LineType, LineV, NodeV,
    OptionPossibility, PossV, Tag, TagV, YarnSpinnerNode, graph_view, graph_wf, line_wf,
    node_wf, opt_cond_view, spec_condition_type};
use crate::errors::YarnSpinnerDialogLoaderError;
use crate::resolve::{first_dangling, first_dup_from, graph_has_target, graph_same_shape,
    has_duplicate_title, resolve_nodes, title_exists, titles_unique};
use crate::textscan::{chars_of, ends_with_str, find_char, find_in, lemma_find_char_props,
    range_eq_str, spec_ends_with, spec_lines, spec_split, spec_starts_with, spec_trim,
    split_trimmed_lines, split_vec, starts_with_str, string_of, subvec, trim};

verus! {

// ---------------------------------------------------------------------------
// The grammar, as specification functions
// ---------------------------------------------------------------------------

/// A boolean literal of the script language.
pub open spec fn spec_bool_word(w: Seq<char>) -> Option<bool> {
    if w == "true"@ {
        Some(true)
    } else if w == "false"@ {
        Some(false)
    } else {
        None
    }
}

/// A variable reference: `$` followed by a non-empty name.
pub open spec fn spec_var_word(w: Seq<char>) -> Option<Seq<char>> {
    if w.len() >= 2 && w[0] == '$' {
        Some(w.skip(1))
    } else {
        None
    }
}

/// A section header: `title:` followed by a non-empty title.
pub open spec fn spec_parse_title(l: Seq<char>) -> Option<Seq<char>> {
    if spec_starts_with(l, "title:"@) && spec_trim(l.skip(6)).len() > 0 {
        Some(spec_trim(l.skip(6)))
    } else {
        None
    }
}

/// An inline guard: `<<if $name op bool>>` with `op` one of `==`, `!=`.
pub open spec fn spec_parse_condition(s: Seq<char>) -> Option<CondV> {
    if spec_starts_with(s, "<<"@) && spec_ends_with(s, ">>"@) && s.len() >= 4 {
        let words = spec_split(s.subrange(2, s.len() - 2), ' ');
        if words.len() == 4 && words[0] == "if"@ && spec_var_word(words[1]) is Some
            && spec_condition_type(words[2]) is Ok && spec_bool_word(words[3]) is Some {
            Some(
                CondV {
                    variable_name: spec_var_word(words[1])->0,
                    condition: spec_condition_type(words[2])->Ok_0,
                    value: spec_bool_word(words[3])->0,
                },
            )
        } else {
            None
        }
    } else {
        None
    }
}

/// A trailing `#name:value` annotation piece of a dialog line.
pub open spec fn spec_parse_tag(p: Seq<char>) -> Option<TagV> {
    let j = find_char(p, ':');
    if 0 <= j < p.len() {
        let name = spec_trim(p.take(j));
        let value = spec_trim(p.skip(j + 1));
        if name.len() > 0 && value.len() > 0 {
            Some(TagV { name: name, value: value })
        } else {
            None
        }
    } else {
        None
    }
}

/// All `#...` pieces of a dialog line, each parsed as a tag.
pub open spec fn spec_parse_tags(ps: Seq<Seq<char>>) -> Option<Seq<TagV>>
    decreases ps.len(),
{
    if ps.len() == 0 {
        Some(Seq::empty())
    } else {
        match (spec_parse_tag(ps.first()), spec_parse_tags(ps.drop_first())) {
            (Some(t), Some(rest)) => Some(seq![t] + rest),
            _ => None,
        }
    }
}

/// What one body line means, before option pairs are grouped.
pub enum BodySpecV {
    /// The `===` marker closing a section.
    EndMark,
    /// A set, command, dialog or jump line (jump target index still 0).
    Content(LineV),
    /// A `->` line opening one option possibility, awaiting its jump.
    OptionStart(Seq<char>, Option<CondV>),
    /// No form of the grammar fits.
    Bad,
}

/// Classification of one non-blank trimmed body line.
pub open spec fn spec_body_line(l: Seq<char>) -> BodySpecV {
    if l == "==="@ {
        BodySpecV::EndMark
    } else if spec_starts_with(l, "<<"@) {
        if !(spec_ends_with(l, ">>"@) && l.len() >= 4) {
            BodySpecV::Bad
        } else {
            let words = spec_split(l.subrange(2, l.len() - 2), ' ');
            if words[0] == "set"@ {
                if words.len() == 4 && spec_var_word(words[1]) is Some && words[2] == "to"@
                    && spec_bool_word(words[3]) is Some {
                    BodySpecV::Content(
                        LineV::SetLine {
                            variable_name: spec_var_word(words[1])->0,
                            value: spec_bool_word(words[3])->0,
                        },
                    )
                } else {
                    BodySpecV::Bad
                }
            } else if words[0] == "jump"@ {
                if words.len() == 2 && words[1].len() > 0 {
                    BodySpecV::Content(LineV::JumpLine { node_title: words[1], node: 0 })
                } else {
                    BodySpecV::Bad
                }
            } else if words[0] == "if"@ {
                BodySpecV::Bad
            } else if words[0].len() > 0 && (forall|j: int|
                0 < j < words.len() ==> (#[trigger] words[j]).len() > 0) {
                BodySpecV::Content(
                    LineV::CommandLine { func_name: words[0], args: words.drop_first() },
                )
            } else {
                BodySpecV::Bad
            }
        }
    } else if spec_starts_with(l, "->"@) {
        let rest = spec_trim(l.skip(2));
        let k = find_char(rest, '<');
        if 0 <= k < rest.len() {
            let text = spec_trim(rest.take(k));
            match spec_parse_condition(rest.skip(k)) {
                Some(c) => if text.len() > 0 {
                    BodySpecV::OptionStart(text, Some(c))
                } else {
                    BodySpecV::Bad
                },
                None => BodySpecV::Bad,
            }
        } else {
            if rest.len() > 0 {
                BodySpecV::OptionStart(rest, None)
            } else {
                BodySpecV::Bad
            }
        }
    } else {
        let i = find_char(l, ':');
        let h = find_char(l, '#');
        let has_speaker = 0 <= i < l.len() && (h < 0 || i < h);
        let speaker = if has_speaker {
            spec_trim(l.take(i))
        } else {
            Seq::<char>::empty()
        };
        let rest = if has_speaker {
            l.skip(i + 1)
        } else {
            l
        };
        let pieces = spec_split(rest, '#');
        let text = spec_trim(pieces[0]);
        match spec_parse_tags(pieces.drop_first()) {
            Some(tags) => if (has_speaker ==> speaker.len() > 0) && text.len() > 0 {
                BodySpecV::Content(LineV::DialogLine { speaker: speaker, text: text, tags: tags })
            } else {
                BodySpecV::Bad
            },
            None => BodySpecV::Bad,
        }
    }
}

// ---------------------------------------------------------------------------
// Lemmas about the tag list
// ---------------------------------------------------------------------------

proof fn lemma_parse_tags_all(ps: Seq<Seq<char>>, ts: Seq<TagV>)
    requires
        ps.len() == ts.len(),
        forall|j: int| 0 <= j < ps.len() ==> spec_parse_tag(#[trigger] ps[j]) == Some(ts[j]),
    ensures
        spec_parse_tags(ps) == Some(ts),
    decreases ps.len(),
{
    if ps.len() == 0 {
        assert(ts =~= Seq::<TagV>::empty());
    } else {
        lemma_parse_tags_all(ps.drop_first(), ts.drop_first());
        assert(seq![ts.first()] + ts.drop_first() =~= ts);
    }
}

proof fn lemma_parse_tags_fail(ps: Seq<Seq<char>>, j: int)
    requires
        0 <= j < ps.len(),
        spec_parse_tag(ps[j]) is None,
    ensures
        spec_parse_tags(ps) is None,
    decreases ps.len(),
{
    if j > 0 {
        lemma_parse_tags_fail(ps.drop_first(), j - 1);
    }
}

// ---------------------------------------------------------------------------
// Executable line parsers
// ---------------------------------------------------------------------------

/// Whether `w` holds exactly the characters of `s`.
fn word_eq(w: &Vec<char>, s: &str) -> (r: bool)
    ensures
        r == (w@ == s@),
{
    let n = w.len();
    let r = range_eq_str(w, 0, n, s);
    assert(w@.subrange(0, w@.len() as int) =~= w@);
    r
}

fn parse_bool_word(w: &Vec<char>) -> (r: Option<bool>)
    ensures
        r == spec_bool_word(w@),
{
    if word_eq(w, "true") {
        Some(true)
    } else if word_eq(w, "false") {
        Some(false)
    } else {
        None
    }
}

fn parse_var_word(w: &Vec<char>) -> (r: Option<String>)
    ensures
        match r {
            Some(s) => spec_var_word(w@) == Some(s@),
            None => spec_var_word(w@) is None,
        },
{
    if w.len() >= 2 && w[0] == '$' {
        let s = string_of(&subvec(w, 1, w.len()));
        assert(w@.subrange(1, w@.len() as int) =~= w@.skip(1));
        Some(s)
    } else {
        None
    }
}

fn condition_type_of_word(w: &Vec<char>) -> (r: Option<ConditionType>)
    ensures
        match r {
            Some(k) => spec_condition_type(w@) == Ok::<ConditionType, ()>(k),
            None => spec_condition_type(w@) is Err,
        },
{
    if word_eq(w, "==") {
        Some(ConditionType::Equal)
    } else if word_eq(w, "!=") {
        Some(ConditionType::NotEqual)
    } else {
        None
    }
}

/// Parses an inline `<<if ...>>` guard.
fn parse_condition_vec(s: &Vec<char>) -> (r: Option<Condition>)
    ensures
        match r {
            Some(c) => spec_parse_condition(s@) == Some(c@),
            None => spec_parse_condition(s@) is None,
        },
{
    proof {
        reveal_strlit("<<");
        reveal_strlit(">>");
    }
    if !(starts_with_str(s, "<<") && ends_with_str(s, ">>") && s.len() >= 4) {
        return None;
    }
    let inner = subvec(s, 2, s.len() - 2);
    let words = split_vec(&inner, ' ');
    let ghost sw = spec_split(s@.subrange(2, s@.len() - 2), ' ');
    proof {
        assert(words@.map_values(|l: Vec<char>| l@) == sw);
    }
    if words.len() != 4 {
        return None;
    }
    if !word_eq(&words[0], "if") {
        return None;
    }
    let var = parse_var_word(&words[1]);
    let kind = condition_type_of_word(&words[2]);
    let val = parse_bool_word(&words[3]);
    match (var, kind, val) {
        (Some(variable_name), Some(condition), Some(value)) => {
            let c = Condition { variable_name, condition, value };
            assert(spec_parse_condition(s@) == Some(c@));
            Some(c)
        },
        _ => None,
    }
}

/// Parses one `#name:value` piece of a dialog line.
fn parse_tag_piece(p: &Vec<char>) -> (r: Option<Tag>)
    ensures
        match r {
            Some(t) => spec_parse_tag(p@) == Some(t@),
            None => spec_parse_tag(p@) is None,
        },
{
    proof {
        lemma_find_char_range(p@, ':');
    }
    match find_in(p, ':') {
        Some(j) => {
            let n = p.len();
            assert(j < n);
            let name_v = trim(&subvec(p, 0, j));
            let value_v = trim(&subvec(p, j + 1, n));
            proof {
                assert(p@.subrange(0, j as int) =~= p@.take(j as int));
                assert(p@.subrange(j + 1, p@.len() as int) =~= p@.skip(j + 1));
            }
            if name_v.len() > 0 && value_v.len() > 0 {
                Some(Tag { name: string_of(&name_v), value: string_of(&value_v) })
            } else {
                None
            }
        },
        None => None,
    }
}

/// A header line: `title:` followed by a non-empty title.
pub(crate) fn parse_title_line(l: &Vec<char>) -> (r: Option<String>)
    ensures
        match r {
            Some(t) => spec_parse_title(l@) == Some(t@),
            None => spec_parse_title(l@) is None,
        },
{
    proof {
        reveal_strlit("title:");
    }
    if !starts_with_str(l, "title:") {
        return None;
    }
    let t = trim(&subvec(l, 6, l.len()));
    assert(l@.subrange(6, l@.len() as int) =~= l@.skip(6));
    if t.len() > 0 {
        Some(string_of(&t))
    } else {
        None
    }
}

/// The executable classification of one body line.
pub(crate) enum BodyLine {
    EndMark,
    Content(LineType),
    OptionStart { text: String, condition: Option<Condition> },
    Bad,
}

proof fn lemma_find_char_range(s: Seq<char>, c: char)
    ensures
        find_char(s, c) >= 0 ==> find_char(s, c) < s.len(),
{
    lemma_find_char_props(s, c);
}

/// Classifies and parses one non-blank trimmed body line.
#[verifier::loop_isolation(false)]
pub(crate) fn parse_body_line(l: &Vec<char>) -> (r: BodyLine)
    ensures
        ({
            let s = spec_body_line(l@);
            match r {
                BodyLine::EndMark => s == BodySpecV::EndMark,
                BodyLine::Content(lt) => s == BodySpecV::Content(lt@),
                BodyLine::OptionStart { text, condition } => s == BodySpecV::OptionStart(
                    text@,
                    crate::components::opt_cond_view(condition),
                ),
                BodyLine::Bad => s == BodySpecV::Bad,
            }
        }),
{
    proof {
        reveal_strlit("<<");
        reveal_strlit(">>");
        reveal_strlit("->");
    }
    if word_eq(l, "===") {
        return BodyLine::EndMark;
    }
    if starts_with_str(l, "<<") {
        if !(ends_with_str(l, ">>") && l.len() >= 4) {
            return BodyLine::Bad;
        }
        let inner = subvec(l, 2, l.len() - 2);
        let words = split_vec(&inner, ' ');
        let ghost sw = spec_split(l@.subrange(2, l@.len() - 2), ' ');
        proof {
            assert(words@.map_values(|x: Vec<char>| x@) == sw);
        }
        if word_eq(&words[0], "set") {
            if words.len() != 4 {
                return BodyLine::Bad;
            }
            let var = parse_var_word(&words[1]);
            let is_to = word_eq(&words[2], "to");
            let val = parse_bool_word(&words[3]);
            if !is_to {
                return BodyLine::Bad;
            }
            match (var, val) {
                (Some(variable_name), Some(value)) => {
                    let lt = LineType::SetLine { variable_name, value };
                    assert(spec_body_line(l@) == BodySpecV::Content(lt@));
                    return BodyLine::Content(lt);
                },
                _ => {
                    return BodyLine::Bad;
                },
            }
        } else if word_eq(&words[0], "jump") {
            if words.len() == 2 && words[1].len() > 0 {
                let lt = LineType::JumpLine { node_title: string_of(&words[1]), node: 0 };
                assert(spec_body_line(l@) == BodySpecV::Content(lt@));
                return BodyLine::Content(lt);
            }
            return BodyLine::Bad;
        } else if word_eq(&words[0], "if") {
            return BodyLine::Bad;
        } else {
            if words[0].len() == 0 {
                return BodyLine::Bad;
            }
            let func_name = string_of(&words[0]);
            let mut args: Vec<String> = Vec::new();
            let mut j: usize = 1;
            while j < words.len()
                invariant
                    1 <= j <= words@.len(),
                    args@.len() == j - 1,
                    words@.map_values(|x: Vec<char>| x@) == sw,
                    forall|k: int| 0 < k < j ==> (#[trigger] sw[k]).len() > 0,
                    forall|k: int| 0 <= k < j - 1 ==> args@[k]@ == sw[k + 1],
                decreases words@.len() - j,
            {
                if words[j].len() == 0 {
                    assert(sw[j as int] == words@[j as int]@);
                    return BodyLine::Bad;
                }
                args.push(string_of(&words[j]));
                j += 1;
            }
            let lt = LineType::CommandLine { func_name, args };
            proof {
                assert(args@.map_values(|a: String| a@) =~= sw.drop_first());
                assert(spec_body_line(l@) == BodySpecV::Content(lt@));
            }
            return BodyLine::Content(lt);
        }
    }
    if starts_with_str(l, "->") {
        let rest = trim(&subvec(l, 2, l.len()));
        assert(l@.subrange(2, l@.len() as int) =~= l@.skip(2));
        proof {
            lemma_find_char_range(rest@, '<');
        }
        match find_in(&rest, '<') {
            Some(k) => {
                let text_v = trim(&subvec(&rest, 0, k));
                let cond_v = subvec(&rest, k, rest.len());
                proof {
                    assert(rest@.subrange(0, k as int) =~= rest@.take(k as int));
                    assert(rest@.subrange(k as int, rest@.len() as int) =~= rest@.skip(k as int));
                }
                match parse_condition_vec(&cond_v) {
                    Some(c) => {
                        if text_v.len() > 0 {
                            BodyLine::OptionStart {
                                text: string_of(&text_v),
                                condition: Some(c),
                            }
                        } else {
                            BodyLine::Bad
                        }
                    },
                    None => BodyLine::Bad,
                }
            },
            None => {
                if rest.len() > 0 {
                    BodyLine::OptionStart { text: string_of(&rest), condition: None }
                } else {
                    BodyLine::Bad
                }
            },
        }
    } else {
        proof {
            lemma_find_char_range(l@, ':');
        }
        proof {
            lemma_find_char_range(l@, '#');
        }
        let n = l.len();
        let colon = find_in(l, ':');
        let hash = find_in(l, '#');
        // The speaker's colon must come before any tag's.
        let (has_speaker, i): (bool, usize) = match (colon, hash) {
            (Some(i), Some(h)) => (i < h, i),
            (Some(i), None) => (true, i),
            _ => (false, 0),
        };
        let speaker_v: Vec<char> = if has_speaker {
            assert(i < n);
            trim(&subvec(l, 0, i))
        } else {
            Vec::new()
        };
        let after: Vec<char> = if has_speaker {
            subvec(l, i + 1, n)
        } else {
            subvec(l, 0, n)
        };
        let ghost rest = if has_speaker {
            l@.skip(i + 1)
        } else {
            l@
        };
        proof {
            if has_speaker {
                assert(l@.subrange(0, i as int) =~= l@.take(i as int));
                assert(l@.subrange(i + 1, l@.len() as int) =~= l@.skip(i + 1));
            } else {
                assert(l@.subrange(0, l@.len() as int) =~= l@);
            }
            assert(after@ == rest);
        }
        let pieces = split_vec(&after, '#');
        let ghost sp = spec_split(rest, '#');
        proof {
            assert(pieces@.map_values(|x: Vec<char>| x@) == sp);
        }
        let text_v = trim(&pieces[0]);
        let mut tags: Vec<Tag> = Vec::new();
        let mut j: usize = 1;
        while j < pieces.len()
            invariant
                1 <= j <= pieces@.len(),
                tags@.len() == j - 1,
                pieces@.map_values(|x: Vec<char>| x@) == sp,
                forall|k: int|
                    0 <= k < j - 1 ==> spec_parse_tag(#[trigger] sp.drop_first()[k]) == Some(
                        tags@[k]@,
                    ),
            decreases pieces@.len() - j,
        {
            let ghost tv = tags@.map_values(|t: Tag| t@);
            match parse_tag_piece(&pieces[j]) {
                Some(t) => {
                    tags.push(t);
                    proof {
                        assert(tags@.map_values(|t: Tag| t@) =~= tv.push(t@));
                    }
                },
                None => {
                    proof {
                        assert(sp[j as int] == pieces@[j as int]@);
                        assert(sp.drop_first()[j - 1] == sp[j as int]);
                        lemma_parse_tags_fail(sp.drop_first(), j - 1);
                    }
                    return BodyLine::Bad;
                },
            }
            j += 1;
        }
        proof {
            lemma_parse_tags_all(sp.drop_first(), tags@.map_values(|t: Tag| t@));
        }
        if (!has_speaker || speaker_v.len() > 0) && text_v.len() > 0 {
            let speaker = if has_speaker {
                string_of(&speaker_v)
            } else {
                String::new()
            };
            let lt = LineType::DialogLine { speaker, text: string_of(&text_v), tags };
            assert(spec_body_line(l@) == BodySpecV::Content(lt@));
            BodyLine::Content(lt)
        } else {
            BodyLine::Bad
        }
    }
}

// ---------------------------------------------------------------------------
// Section assembly
// ---------------------------------------------------------------------------

/// Where in a section the parser stands.
#[derive(Clone, Copy, Debug, PartialEq, Eq, Structural)]
pub enum PMode {
    /// Between sections: the next non-blank line must be a header.
    AtTop,
    /// After a header: the next non-blank line must be `---`.
    AfterTitle,
    /// Inside a section body.
    InBody,
    /// After a `->` line: the next non-blank line must be its jump.
    OptNeedJump,
    /// After an option's jump: another `->` continues the block, anything
    /// else closes it.
    OptAfterJump,
}

/// The parser's whole state between lines, at the mathematical level.
pub struct PStateV {
    pub mode: PMode,
    pub nodes: Seq<NodeV>,
    pub title: Seq<char>,
    pub body: Seq<LineV>,
    pub poss: Seq<PossV>,
    pub pend_text: Seq<char>,
    pub pend_cond: Option<CondV>,
}

pub open spec fn init_pstate() -> PStateV {
    PStateV {
        mode: PMode::AtTop,
        nodes: Seq::empty(),
        title: Seq::empty(),
        body: Seq::empty(),
        poss: Seq::empty(),
        pend_text: Seq::empty(),
        pend_cond: None,
    }
}

/// The option block an accumulated run of possibilities closes into.
pub open spec fn options_line(poss: Seq<PossV>) -> LineV {
    LineV::OptionLine { speaker: "Player"@, possibilities: poss }
}

/// One step of section assembly on a body line, outside an option block.
pub open spec fn spec_step_body(st: PStateV, l: Seq<char>) -> Option<PStateV> {
    match spec_body_line(l) {
        BodySpecV::EndMark => if st.body.len() >= 1 {
            Some(
                PStateV {
                    mode: PMode::AtTop,
                    nodes: st.nodes.push(NodeV { title: st.title, lines: st.body }),
                    title: Seq::empty(),
                    body: Seq::empty(),
                    ..st
                },
            )
        } else {
            None
        },
        BodySpecV::Content(lv) => Some(PStateV { mode: PMode::InBody, body: st.body.push(lv), ..st }),
        BodySpecV::OptionStart(t, c) => Some(
            PStateV { mode: PMode::OptNeedJump, poss: Seq::empty(), pend_text: t, pend_cond: c, ..st },
        ),
        BodySpecV::Bad => None,
    }
}

/// One step of section assembly on a non-blank trimmed line; `None` is a
/// parse error at that line.
pub open spec fn spec_step(st: PStateV, l: Seq<char>) -> Option<PStateV> {
    match st.mode {
        PMode::AtTop => match spec_parse_title(l) {
            Some(t) => Some(
                PStateV { mode: PMode::AfterTitle, title: t, body: Seq::empty(), ..st },
            ),
            None => None,
        },
        PMode::AfterTitle => if l == "---"@ {
            Some(PStateV { mode: PMode::InBody, ..st })
        } else {
            None
        },
        PMode::InBody => spec_step_body(st, l),
        PMode::OptNeedJump => match spec_body_line(l) {
            BodySpecV::Content(lv) => match lv {
                LineV::JumpLine { node_title, node: _ } => Some(
                    PStateV {
                        mode: PMode::OptAfterJump,
                        poss: st.poss.push(
                            PossV {
                                text: st.pend_text,
                                jump_to_node_title: node_title,
                                jump_to_node: 0,
                                condition: st.pend_cond,
                                used: false,
                            },
                        ),
                        pend_text: Seq::empty(),
                        pend_cond: None,
                        ..st
                    },
                ),
                _ => None,
            },
            _ => None,
        },
        PMode::OptAfterJump => match spec_body_line(l) {
            BodySpecV::OptionStart(t, c) => Some(
                PStateV { mode: PMode::OptNeedJump, pend_text: t, pend_cond: c, ..st },
            ),
            _ => spec_step_body(
                PStateV {
                    mode: PMode::InBody,
                    body: st.body.push(options_line(st.poss)),
                    poss: Seq::empty(),
                    ..st
                },
                l,
            ),
        },
    }
}

/// The whole script from line `i` on, in state `st`: the parsed nodes, or
/// the index of the offending line.
pub open spec fn spec_parse_from(lines: Seq<Seq<char>>, i: int, st: PStateV) -> Result<
    Seq<NodeV>,
    int,
>
    decreases lines.len() - i when 0 <= i <= lines.len()
{
    if i >= lines.len() {
        if st.mode == PMode::AtTop && st.nodes.len() >= 1 {
            Ok(st.nodes)
        } else {
            Err(lines.len() as int)
        }
    } else if lines[i].len() == 0 {
        spec_parse_from(lines, i + 1, st)
    } else {
        match spec_step(st, lines[i]) {
            Some(st2) => spec_parse_from(lines, i + 1, st2),
            None => Err(i),
        }
    }
}

/// What parsing the whole script text yields: the drafted nodes in section
/// order (jump indices still 0), or the index of the offending line.
pub open spec fn spec_parse(text: Seq<char>) -> Result<Seq<NodeV>, int> {
    spec_parse_from(spec_lines(text), 0, init_pstate())
}

// ---------------------------------------------------------------------------
// Well-formedness of what parsing yields
// ---------------------------------------------------------------------------

/// The parser state invariant: finished nodes and accumulated body lines
/// are well-formed, and an open option block holds at least one
/// possibility once its first jump arrived.
pub open spec fn pstate_inv(st: PStateV) -> bool {
    &&& forall|i: int| 0 <= i < st.nodes.len() ==> node_wf(#[trigger] st.nodes[i])
    &&& forall|k: int| 0 <= k < st.body.len() ==> line_wf(#[trigger] st.body[k])
    &&& (st.mode == PMode::OptAfterJump ==> st.poss.len() >= 1)
}

proof fn lemma_step_preserves_inv(st: PStateV, l: Seq<char>)
    requires
        pstate_inv(st),
        spec_step(st, l) is Some,
    ensures
        pstate_inv(spec_step(st, l)->0),
{
}

proof fn lemma_parse_from_wf(lines: Seq<Seq<char>>, i: int, st: PStateV)
    requires
        0 <= i <= lines.len(),
        pstate_inv(st),
    ensures
        spec_parse_from(lines, i, st) matches Ok(ns) ==> forall|j: int|
            0 <= j < ns.len() ==> node_wf(#[trigger] ns[j]),
    decreases lines.len() - i,
{
    if i < lines.len() {
        if lines[i].len() == 0 {
            lemma_parse_from_wf(lines, i + 1, st);
        } else {
            match spec_step(st, lines[i]) {
                Some(st2) => {
                    lemma_step_preserves_inv(st, lines[i]);
                    lemma_parse_from_wf(lines, i + 1, st2);
                },
                None => {},
            }
        }
    }
}

/// Every node a successful parse yields is well-formed.
pub proof fn lemma_parse_wf(text: Seq<char>)
    ensures
        spec_parse(text) matches Ok(ns) ==> forall|j: int|
            0 <= j < ns.len() ==> node_wf(#[trigger] ns[j]),
{
    lemma_parse_from_wf(spec_lines(text), 0, init_pstate());
}

// ---------------------------------------------------------------------------
// The executable parser
// ---------------------------------------------------------------------------

struct PState {
    mode: PMode,
    nodes: Vec<YarnSpinnerNode>,
    title: String,
    body: Vec<LineType>,
    poss: Vec<OptionPossibility>,
    pend_text: String,
    pend_cond: Option<Condition>,
}

impl View for PState {
    type V = PStateV;

    closed spec fn view(&self) -> PStateV {
        PStateV {
            mode: self.mode,
            nodes: graph_view(self.nodes@),
            title: self.title@,
            body: self.body@.map_values(|l: LineType| l@),
            poss: self.poss@.map_values(|p: OptionPossibility| p@),
            pend_text: self.pend_text@,
            pend_cond: opt_cond_view(self.pend_cond),
        }
    }
}

/// One step of section assembly on a non-blank trimmed line.
fn pstep(st: PState, l: &Vec<char>) -> (r: Option<PState>)
    ensures
        match r {
            Some(st2) => spec_step(st@, l@) == Some(st2@),
            None => spec_step(st@, l@) is None,
        },
{
    let ghost sv = st@;
    match st.mode {
        PMode::AtTop => match parse_title_line(l) {
            Some(t) => {
                let st2 = PState { mode: PMode::AfterTitle, title: t, body: Vec::new(), ..st };
                proof {
                    assert(st2@.body =~= Seq::<LineV>::empty());
                    assert(st2@ == spec_step(sv, l@)->0);
                }
                Some(st2)
            },
            None => None,
        },
        PMode::AfterTitle => {
            if word_eq(l, "---") {
                let st2 = PState { mode: PMode::InBody, ..st };
                proof {
                    assert(st2@ == spec_step(sv, l@)->0);
                }
                Some(st2)
            } else {
                None
            }
        },
        PMode::InBody => {
            let b = parse_body_line(l);
            pstep_body(st, b, Ghost(l@))
        },
        PMode::OptNeedJump => {
            let b = parse_body_line(l);
            match b {
                BodyLine::Content(lt) => match lt {
                    LineType::JumpLine { node_title, node: _ } => {
                        let PState { mode: _, nodes, title, body, mut poss, pend_text, pend_cond }
                            = st;
                        poss.push(
                            OptionPossibility {
                                text: pend_text,
                                jump_to_node_title: node_title,
                                jump_to_node: 0,
                                condition: pend_cond,
                                used: false,
                            },
                        );
                        let st2 = PState {
                            mode: PMode::OptAfterJump,
                            nodes,
                            title,
                            body,
                            poss,
                            pend_text: String::new(),
                            pend_cond: None,
                        };
                        proof {
                            assert(st2@.poss =~= spec_step(sv, l@)->0.poss);
                            assert(st2@ == spec_step(sv, l@)->0);
                        }
                        Some(st2)
                    },
                    _ => None,
                },
                _ => None,
            }
        },
        PMode::OptAfterJump => {
            let b = parse_body_line(l);
            match b {
                BodyLine::OptionStart { text, condition } => {
                    let st2 = PState {
                        mode: PMode::OptNeedJump,
                        pend_text: text,
                        pend_cond: condition,
                        ..st
                    };
                    proof {
                        assert(st2@ == spec_step(sv, l@)->0);
                    }
                    Some(st2)
                },
                _ => {
                    let mut closed = st;
                    let group = LineType::OptionLine {
                        speaker: String::from_str("Player"),
                        possibilities: closed.poss,
                    };
                    closed.poss = Vec::new();
                    closed.body.push(group);
                    closed.mode = PMode::InBody;
                    proof {
                        let mid = PStateV {
                            mode: PMode::InBody,
                            body: sv.body.push(options_line(sv.poss)),
                            poss: Seq::empty(),
                            ..sv
                        };
                        assert(closed@.body =~= mid.body);
                        assert(closed@.poss =~= mid.poss);
                        assert(closed@ == mid);
                    }
                    pstep_body(closed, b, Ghost(l@))
                },
            }
        },
    }
}

/// Applies an already classified body line to a state in `InBody` mode.
fn pstep_body(st: PState, b: BodyLine, l: Ghost<Seq<char>>) -> (r: Option<PState>)
    requires
        st.mode == PMode::InBody,
        match b {
            BodyLine::EndMark => spec_body_line(l@) == BodySpecV::EndMark,
            BodyLine::Content(lt) => spec_body_line(l@) == BodySpecV::Content(lt@),
            BodyLine::OptionStart { text, condition } => spec_body_line(l@)
                == BodySpecV::OptionStart(text@, opt_cond_view(condition)),
            BodyLine::Bad => spec_body_line(l@) == BodySpecV::Bad,
        },
    ensures
        match r {
            Some(st2) => spec_step_body(st@, l@) == Some(st2@),
            None => spec_step_body(st@, l@) is None,
        },
{
    let ghost sv = st@;
    match b {
        BodyLine::EndMark => {
            if st.body.len() >= 1 {
                let mut st2 = st;
                let node = YarnSpinnerNode { title: st2.title, lines: st2.body };
                st2.title = String::new();
                st2.body = Vec::new();
                st2.nodes.push(node);
                st2.mode = PMode::AtTop;
                proof {
                    assert(st2@.nodes =~= sv.nodes.push(NodeV { title: sv.title, lines: sv.body }));
                    assert(st2@.body =~= Seq::<LineV>::empty());
                    assert(st2@ == spec_step_body(sv, l@)->0);
                }
                Some(st2)
            } else {
                None
            }
        },
        BodyLine::Content(lt) => {
            let mut st2 = st;
            st2.body.push(lt);
            proof {
                assert(st2@.body =~= sv.body.push(lt@));
                assert(st2@ == spec_step_body(sv, l@)->0);
            }
            Some(st2)
        },
        BodyLine::OptionStart { text, condition } => {
            let st2 = PState {
                mode: PMode::OptNeedJump,
                poss: Vec::new(),
                pend_text: text,
                pend_cond: condition,
                ..st
            };
            proof {
                assert(st2@.poss =~= Seq::<PossV>::empty());
                assert(st2@ == spec_step_body(sv, l@)->0);
            }
            Some(st2)
        },
        BodyLine::Bad => None,
    }
}

/// Parses the whole script text into drafted nodes, in section order, with
/// every jump index still the placeholder 0.  An error is the zero-based
/// index of the offending physical line (the line count for a script that
/// ends inside a section).
pub(crate) fn parse_nodes(text: &Vec<char>) -> (r: Result<Vec<YarnSpinnerNode>, usize>)
    ensures
        match r {
            Ok(ns) => spec_parse(text@) == Ok::<Seq<NodeV>, int>(graph_view(ns@)),
            Err(i) => spec_parse(text@) == Err::<Seq<NodeV>, int>(i as int),
        },
{
    let lines = split_trimmed_lines(text);
    let ghost lv = lines@.map_values(|l: Vec<char>| l@);
    let mut st = PState {
        mode: PMode::AtTop,
        nodes: Vec::new(),
        title: String::new(),
        body: Vec::new(),
        poss: Vec::new(),
        pend_text: String::new(),
        pend_cond: None,
    };
    proof {
        assert(st@.nodes =~= init_pstate().nodes);
        assert(st@.body =~= init_pstate().body);
        assert(st@.poss =~= init_pstate().poss);
        assert(st@ == init_pstate());
    }
    let mut i: usize = 0;
    while i < lines.len()
        invariant
            i <= lines@.len(),
            lv == lines@.map_values(|l: Vec<char>| l@),
            lv == spec_lines(text@),
            spec_parse_from(lv, 0, init_pstate()) == spec_parse_from(lv, i as int, st@),
        decreases lines@.len() - i,
    {
        let ghost sv = st@;
        let line = &lines[i];
        proof {
            assert(lv[i as int] == line@);
        }
        if line.len() > 0 {
            match pstep(st, line) {
                Some(st2) => {
                    st = st2;
                    proof {
                        assert(spec_parse_from(lv, i as int, sv) == spec_parse_from(
                            lv,
                            i + 1,
                            st@,
                        ));
                    }
                },
                None => {
                    proof {
                        assert(spec_parse_from(lv, i as int, sv) == Err::<Seq<NodeV>, int>(
                            i as int,
                        ));
                    }
                    return Err(i);
                },
            }
        }
        i += 1;
    }
    if st.mode == PMode::AtTop && st.nodes.len() >= 1 {
        proof {
            assert(spec_parse_from(lv, i as int, st@) == Ok::<Seq<NodeV>, int>(st@.nodes));
        }
        let out = st.nodes;
        Ok(out)
    } else {
        proof {
            assert(spec_parse_from(lv, i as int, st@) == Err::<Seq<NodeV>, int>(lv.len() as int));
        }
        Err(lines.len())
    }
}

/// Loads a whole script: parses the text into sections and resolves every
/// jump and option target, yielding the owned node graph the runner walks.
///
/// The result is `Ok` exactly when the text matches the grammar, no two
/// sections share a title, and every target names an existing section; the
/// loaded graph then mirrors the parsed sections one for one, with every
/// target index pointing at the node of the matching title.
pub fn load_from_file(dialog: &str) -> (r: Result<
    Vec<YarnSpinnerNode>,
    YarnSpinnerDialogLoaderError,
>)
    ensures
        ({
            let sp = spec_parse(dialog@);
            match r {
                Ok(g) => {
                    &&& sp is Ok
                    &&& graph_wf(graph_view(g@))
                    &&& graph_same_shape(graph_view(g@), sp->Ok_0)
                    &&& titles_unique(sp->Ok_0)
                    &&& first_dangling(sp->Ok_0) is None
                },
                Err(e) => match e {
                    YarnSpinnerDialogLoaderError::ParsingError { line } => sp == Err::<
                        Seq<NodeV>,
                        int,
                    >(line as int),
                    YarnSpinnerDialogLoaderError::DuplicateNodeTitle { title } => sp is Ok
                        && has_duplicate_title(sp->Ok_0, title@) && first_dup_from(sp->Ok_0, 0)
                        >= 0 && sp->Ok_0[first_dup_from(sp->Ok_0, 0)].title == title@,
                    YarnSpinnerDialogLoaderError::UnknownNode { title } => sp is Ok
                        && titles_unique(sp->Ok_0) && graph_has_target(sp->Ok_0, title@)
                        && !title_exists(sp->Ok_0, title@) && first_dangling(sp->Ok_0) == Some(
                        title@,
                    ),
                    YarnSpinnerDialogLoaderError::Io { .. } => false,
                },
            }
        }),
{
    let text = chars_of(dialog);
    let drafts = match parse_nodes(&text) {
        Ok(ns) => ns,
        Err(line) => {
            return Err(YarnSpinnerDialogLoaderError::ParsingError { line });
        },
    };
    proof {
        lemma_parse_wf(dialog@);
        assert(spec_parse(dialog@) == Ok::<Seq<NodeV>, int>(graph_view(drafts@)));
        assert forall|i: int|
            0 <= i < drafts@.len() implies node_wf(#[trigger] graph_view(drafts@)[i]) by {
            assert(node_wf(spec_parse(dialog@)->Ok_0[i]));
            assert(spec_parse(dialog@)->Ok_0[i] == graph_view(drafts@)[i]);
        }
    }
    resolve_nodes(drafts)
}

} // verus!
