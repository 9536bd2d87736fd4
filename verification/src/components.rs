//! The script model: nodes, lines, conditions, options, and the
//! mathematical view of a loaded node graph together with its
//! well-formedness predicates.

use vstd::prelude::*;

verus! {

/// A guard on one option possibility: compares the stored boolean value
/// of `variable_name` against `value` with `condition`.
#[derive(Clone, Debug)]
pub struct Condition {
    pub variable_name: String,
    pub condition: ConditionType,
    pub value: bool,
}

/// The comparison a `Condition` performs.
#[derive(Clone, Copy, Debug, PartialEq, Eq, Structural)]
pub enum ConditionType {
    Equal,
    NotEqual,
}

impl ConditionType {
    /// The comparison written in script text: `==` or `!=`.
    pub fn from_str(s: &str) -> (r: Result<ConditionType, ()>)
        ensures
            r == spec_condition_type(s@),
    {
        proof {
            reveal_strlit("==");
            reveal_strlit("!=");
        }
        if s.unicode_len() == 2 {
            let c0 = s.get_char(0);
            let c1 = s.get_char(1);
            if c0 == '=' && c1 == '=' {
                assert(s@ =~= "=="@);
                Ok(ConditionType::Equal)
            } else if c0 == '!' && c1 == '=' {
                assert(s@ =~= "!="@);
                Ok(ConditionType::NotEqual)
            } else {
                assert(s@ != "=="@ && s@ != "!="@);
                Err(())
            }
        } else {
            Err(())
        }
    }
}

/// Which `ConditionType` a comparison token denotes, if any.
pub open spec fn spec_condition_type(s: Seq<char>) -> Result<ConditionType, ()> {
    if s == "=="@ {
        Ok(ConditionType::Equal)
    } else if s == "!="@ {
        Ok(ConditionType::NotEqual)
    } else {
        Err(())
    }
}

/// A `#name:value` annotation trailing a dialog line.
#[derive(Clone, Debug, PartialEq)]
pub struct Tag {
    pub name: String,
    pub value: String,
}

/// One candidate branch of an option block. `jump_to_node` is the index of
/// the target node in the owning graph, filled in by resolution; `used`
/// starts false and is set exactly when this possibility is chosen.
#[derive(Clone, Debug)]
pub struct OptionPossibility {
    pub text: String,
    pub jump_to_node_title: String,
    pub jump_to_node: usize,
    pub condition: Option<Condition>,
    pub used: bool,
}

/// One parsed unit of script content.
#[derive(Clone, Debug)]
pub enum LineType {
    SetLine { variable_name: String, value: bool },
    CommandLine { func_name: String, args: Vec<String> },
    DialogLine { speaker: String, text: String, tags: Vec<Tag> },
    JumpLine { node_title: String, node: usize },
    OptionLine { speaker: String, possibilities: Vec<OptionPossibility> },
}

/// A named, ordered, non-empty block of lines; a vertex of the dialog graph.
#[derive(Clone, Debug)]
pub struct YarnSpinnerNode {
    pub title: String,
    pub lines: Vec<LineType>,
}

// ---------------------------------------------------------------------------
// Mathematical views
// ---------------------------------------------------------------------------

#[verifier::ext_equal]
pub struct CondV {
    pub variable_name: Seq<char>,
    pub condition: ConditionType,
    pub value: bool,
}

#[verifier::ext_equal]
pub struct TagV {
    pub name: Seq<char>,
    pub value: Seq<char>,
}

#[verifier::ext_equal]
pub struct PossV {
    pub text: Seq<char>,
    pub jump_to_node_title: Seq<char>,
    pub jump_to_node: int,
    pub condition: Option<CondV>,
    pub used: bool,
}

#[verifier::ext_equal]
pub enum LineV {
    SetLine { variable_name: Seq<char>, value: bool },
    CommandLine { func_name: Seq<char>, args: Seq<Seq<char>> },
    DialogLine { speaker: Seq<char>, text: Seq<char>, tags: Seq<TagV> },
    JumpLine { node_title: Seq<char>, node: int },
    OptionLine { speaker: Seq<char>, possibilities: Seq<PossV> },
}

#[verifier::ext_equal]
pub struct NodeV {
    pub title: Seq<char>,
    pub lines: Seq<LineV>,
}

/// The view of an optional condition.
pub open spec fn opt_cond_view(c: Option<Condition>) -> Option<CondV> {
    match c {
        Some(c) => Some(c@),
        None => None,
    }
}

impl View for Condition {
    type V = CondV;

    open spec fn view(&self) -> CondV {
        CondV {
            variable_name: self.variable_name@,
            condition: self.condition,
            value: self.value,
        }
    }
}

impl View for Tag {
    type V = TagV;

    open spec fn view(&self) -> TagV {
        TagV { name: self.name@, value: self.value@ }
    }
}

impl View for OptionPossibility {
    type V = PossV;

    open spec fn view(&self) -> PossV {
        PossV {
            text: self.text@,
            jump_to_node_title: self.jump_to_node_title@,
            jump_to_node: self.jump_to_node as int,
            condition: opt_cond_view(self.condition),
            used: self.used,
        }
    }
}

impl View for LineType {
    type V = LineV;

    open spec fn view(&self) -> LineV {
        match self {
            LineType::SetLine { variable_name, value } => LineV::SetLine {
                variable_name: variable_name@,
                value: *value,
            },
            LineType::CommandLine { func_name, args } => LineV::CommandLine {
                func_name: func_name@,
                args: args@.map_values(|a: String| a@),
            },
            LineType::DialogLine { speaker, text, tags } => LineV::DialogLine {
                speaker: speaker@,
                text: text@,
                tags: tags@.map_values(|t: Tag| t@),
            },
            LineType::JumpLine { node_title, node } => LineV::JumpLine {
                node_title: node_title@,
                node: *node as int,
            },
            LineType::OptionLine { speaker, possibilities } => LineV::OptionLine {
                speaker: speaker@,
                possibilities: possibilities@.map_values(|p: OptionPossibility| p@),
            },
        }
    }
}

impl View for YarnSpinnerNode {
    type V = NodeV;

    open spec fn view(&self) -> NodeV {
        NodeV { title: self.title@, lines: self.lines@.map_values(|l: LineType| l@) }
    }
}

/// The view of a whole owned node list.
pub open spec fn graph_view(nodes: Seq<YarnSpinnerNode>) -> Seq<NodeV> {
    nodes.map_values(|n: YarnSpinnerNode| n@)
}

// ---------------------------------------------------------------------------
// Well-formedness
// ---------------------------------------------------------------------------

/// Every option block presents at least one possibility.
pub open spec fn line_wf(l: LineV) -> bool {
    l matches LineV::OptionLine { possibilities, .. } ==> possibilities.len() >= 1
}

/// A node owns at least one line, each well-formed.
pub open spec fn node_wf(n: NodeV) -> bool {
    &&& n.lines.len() >= 1
    &&& forall|k: int| 0 <= k < n.lines.len() ==> line_wf(#[trigger] n.lines[k])
}

/// Whether every jump and option target inside node `n` is an in-range
/// index of `g` whose node carries the matching title.
pub open spec fn node_resolved(g: Seq<NodeV>, n: NodeV) -> bool {
    forall|k: int|
        0 <= k < n.lines.len() ==> {
            &&& (#[trigger] n.lines[k] matches LineV::JumpLine { node_title, node } ==> 0 <= node
                < g.len() && g[node].title == node_title)
            &&& (n.lines[k] matches LineV::OptionLine { possibilities, .. } ==> forall|p: int|
                0 <= p < possibilities.len() ==> {
                    let t = #[trigger] possibilities[p];
                    0 <= t.jump_to_node < g.len() && g[t.jump_to_node].title
                        == t.jump_to_node_title
                })
        }
}

/// The invariant of a loaded dialog graph: non-empty well-formed nodes,
/// pairwise distinct titles, and every cross-reference resolved to the
/// node of the matching title.
pub open spec fn graph_wf(g: Seq<NodeV>) -> bool {
    &&& forall|i: int| 0 <= i < g.len() ==> node_wf(#[trigger] g[i])
    &&& forall|i: int, j: int|
        0 <= i < g.len() && 0 <= j < g.len() && i != j ==> g[i].title != g[j].title
    &&& forall|i: int| 0 <= i < g.len() ==> node_resolved(g, #[trigger] g[i])
}

} // verus!
