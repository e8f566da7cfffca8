//! The layout of a query profile: phase timings and the plan tree.
use vstd::prelude::*;

use crate::explain::spaces;
use crate::text::{push_char, push_str};

verus! {

broadcast use vstd::string::group_string_axioms;

/// A node of a profiled plan, with its timing already written as text.
pub struct ProfileNodeText {
    pub node: String,
    /// The time spent, in milliseconds, as it is shown.
    pub time_ms: String,
    pub rows: usize,
    pub children: Vec<ProfileNodeText>,
}

/// A query profile, with its timings already written as text.
pub struct ProfileText {
    /// The total time, in milliseconds, as it is shown.
    pub total_ms: String,
    pub analyze_ms: String,
    pub optimize_ms: String,
    pub execute_ms: String,
    pub format_ms: String,
    pub plan: ProfileNodeText,
}

/// The decimal digit for `d`.
pub open spec fn digit_char(d: int) -> char {
    if d == 0 {
        '0'
    } else if d == 1 {
        '1'
    } else if d == 2 {
        '2'
    } else if d == 3 {
        '3'
    } else if d == 4 {
        '4'
    } else if d == 5 {
        '5'
    } else if d == 6 {
        '6'
    } else if d == 7 {
        '7'
    } else if d == 8 {
        '8'
    } else {
        '9'
    }
}

/// The decimal text of `n`.
pub open spec fn decimal(n: nat) -> Seq<char>
    decreases n,
{
    if n < 10 {
        seq![digit_char(n as int)]
    } else {
        decimal(n / 10).push(digit_char((n % 10) as int))
    }
}

/// The line of a plan node: its name, time and rows, after `indent`.
pub open spec fn node_line(n: ProfileNodeText, indent: Seq<char>) -> Seq<char> {
    indent + n.node@ + seq![' ', '['] + n.time_ms@ + seq!['m', 's', ',', ' '] + decimal(
        n.rows as nat,
    ) + seq![' ', 'r', 'o', 'w', 's', ']', '\n']
}

/// A plan node and, below it, its children, each level indented by two more spaces.
pub open spec fn node_text(n: ProfileNodeText, indent: Seq<char>) -> Seq<char>
    decreases n,
{
    node_line(n, indent) + children_text(n.children@, indent + seq![' ', ' '])
}

/// The texts of the nodes `cs`, one after another.
pub open spec fn children_text(cs: Seq<ProfileNodeText>, indent: Seq<char>) -> Seq<char>
    decreases cs,
{
    if cs.len() == 0 {
        Seq::empty()
    } else {
        children_text(cs.subrange(0, cs.len() - 1), indent) + node_text(cs[cs.len() - 1], indent)
    }
}

/// A labelled timing line: `indent`, the label, the time and `ms`.
pub open spec fn timing_line(indent: Seq<char>, label: Seq<char>, ms: Seq<char>) -> Seq<char> {
    indent + label + ms + seq!['m', 's', '\n']
}

/// The text of a profile: the total, the four phases, and the plan tree,
/// all after `indent` spaces.
pub open spec fn profile_text(p: ProfileText, indent: nat) -> Seq<char> {
    let i = spaces(indent as int);
    timing_line(i, "Total: "@, p.total_ms@) + i + "Phases:\n"@ + timing_line(
        i,
        "  analyze:  "@,
        p.analyze_ms@,
    ) + timing_line(i, "  optimize: "@, p.optimize_ms@) + timing_line(
        i,
        "  execute:  "@,
        p.execute_ms@,
    ) + timing_line(i, "  format:   "@, p.format_ms@) + i + "Plan:\n"@ + node_text(
        p.plan,
        i + seq![' ', ' '],
    )
}

/// The decimal digit for `d`.
fn digit(d: usize) -> (c: char)
    requires
        d < 10,
    ensures
        c == digit_char(d as int),
{
    if d == 0 {
        '0'
    } else if d == 1 {
        '1'
    } else if d == 2 {
        '2'
    } else if d == 3 {
        '3'
    } else if d == 4 {
        '4'
    } else if d == 5 {
        '5'
    } else if d == 6 {
        '6'
    } else if d == 7 {
        '7'
    } else if d == 8 {
        '8'
    } else {
        '9'
    }
}

/// The decimal text of `n`.
pub fn decimal_string(n: usize) -> (r: String)
    ensures
        r@ == decimal(n as nat),
    decreases n,
{
    if n < 10 {
        let mut s = String::new();
        push_char(&mut s, digit(n));
        proof {
            assert(s@ =~= seq![digit_char(n as int)]);
        }
        s
    } else {
        let mut s = decimal_string(n / 10);
        push_char(&mut s, digit(n % 10));
        s
    }
}

/// Appends `t` to `s`.
fn append(s: &mut String, t: &String)
    ensures
        final(s)@ == old(s)@ + t@,
{
    push_str(s, t.as_str());
}

/// A plan node and its children, below it, each level indented by two more spaces.
fn render_node(n: &ProfileNodeText, indent: &String) -> (r: String)
    ensures
        r@ == node_text(*n, indent@),
    decreases n,
{
    let mut out = String::new();
    append(&mut out, indent);
    append(&mut out, &n.node);
    push_str(&mut out, " [");
    append(&mut out, &n.time_ms);
    push_str(&mut out, "ms, ");
    let rows = decimal_string(n.rows);
    append(&mut out, &rows);
    push_str(&mut out, " rows]\n");
    proof {
        reveal_strlit(" [");
        reveal_strlit("ms, ");
        reveal_strlit(" rows]\n");
        assert(out@ =~= node_line(*n, indent@));
    }
    let mut deeper = String::new();
    append(&mut deeper, indent);
    push_str(&mut deeper, "  ");
    proof {
        reveal_strlit("  ");
        assert(deeper@ =~= indent@ + seq![' ', ' ']);
    }
    let ghost line = out@;
    let ghost cs = n.children@;
    let mut i: usize = 0;
    while i < n.children.len()
        invariant
            cs == n.children@,
            i <= cs.len(),
            deeper@ == indent@ + seq![' ', ' '],
            out@ == line + children_text(cs.subrange(0, i as int), deeper@),
        decreases cs.len() - i,
    {
        assert(decreases_to!(*n => n.children));
        let child = render_node(&n.children[i], &deeper);
        append(&mut out, &child);
        proof {
            let sub = cs.subrange(0, i + 1);
            assert(sub.subrange(0, sub.len() - 1) =~= cs.subrange(0, i as int));
            assert(sub[sub.len() - 1] == cs[i as int]);
        }
        i = i + 1;
    }
    proof {
        assert(cs.subrange(0, cs.len() as int) =~= cs);
    }
    out
}

/// Lays out a query profile: the total time, the four phases, and the plan
/// tree, each line after `indent` spaces.
pub fn format_profile(profile: &ProfileText, indent: usize) -> (r: String)
    ensures
        r@ == profile_text(*profile, indent as nat),
{
    let mut p = String::new();
    let mut q: usize = 0;
    while q < indent
        invariant
            q <= indent,
            p@ == spaces(q as int),
        decreases indent - q,
    {
        push_char(&mut p, ' ');
        q = q + 1;
        assert(p@ =~= spaces(q as int));
    }
    let mut out = String::new();
    append(&mut out, &p);
    push_str(&mut out, "Total: ");
    append(&mut out, &profile.total_ms);
    push_str(&mut out, "ms\n");
    append(&mut out, &p);
    push_str(&mut out, "Phases:\n");
    append(&mut out, &p);
    push_str(&mut out, "  analyze:  ");
    append(&mut out, &profile.analyze_ms);
    push_str(&mut out, "ms\n");
    append(&mut out, &p);
    push_str(&mut out, "  optimize: ");
    append(&mut out, &profile.optimize_ms);
    push_str(&mut out, "ms\n");
    append(&mut out, &p);
    push_str(&mut out, "  execute:  ");
    append(&mut out, &profile.execute_ms);
    push_str(&mut out, "ms\n");
    append(&mut out, &p);
    push_str(&mut out, "  format:   ");
    append(&mut out, &profile.format_ms);
    push_str(&mut out, "ms\n");
    append(&mut out, &p);
    push_str(&mut out, "Plan:\n");
    let mut deeper = String::new();
    append(&mut deeper, &p);
    push_str(&mut deeper, "  ");
    let plan = render_node(&profile.plan, &deeper);
    append(&mut out, &plan);
    proof {
        reveal_strlit("ms\n");
        reveal_strlit("  ");
        assert(deeper@ =~= p@ + seq![' ', ' ']);
        assert(out@ =~= profile_text(*profile, indent as nat));
    }
    out
}

/// Every child of a node is laid out, in order: the text of children with
/// one more appended is their text followed by the new child's, and no
/// children give no text.
pub proof fn law_children_in_order(cs: Seq<ProfileNodeText>, c: ProfileNodeText, indent: Seq<char>)
    ensures
        children_text(cs.push(c), indent) == children_text(cs, indent) + node_text(c, indent),
        children_text(Seq::<ProfileNodeText>::empty(), indent) == Seq::<char>::empty(),
        node_text(c, indent) == node_line(c, indent) + children_text(
            c.children@,
            indent + seq![' ', ' '],
        ),
{
    let d = cs.push(c);
    assert(d.subrange(0, d.len() - 1) =~= cs);
    assert(d[d.len() - 1] == c);
}

} // verus!
