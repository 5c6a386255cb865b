//! Line classification, tag extraction, and the nesting tracker that turns a
//! list of lines into a list of linked element records.

use std::collections::HashMap;

use vstd::prelude::*;
use crate::attrs::AttrMap;
use crate::text::contains_char;
use crate::text::contains_seq;
use crate::text::contains_substr;
use crate::text::find_char;
use crate::text::find_substr;
use crate::text::lemma_spec_find_char;
use crate::text::lemma_spec_find_seq;
use crate::text::spec_find_char;
use crate::text::spec_find_seq;
use crate::text::spec_trim_start;
use crate::text::str_eq;
use crate::text::trim_start;
use crate::tree_struct::Node;
use crate::tree_struct::NodeView;

verus! {

// ---------------------------------------------------------------------------
// Line classification
// ---------------------------------------------------------------------------
/// A prolog declaration line: carries both `<?` and `?>`.
pub open spec fn spec_is_prolog(s: Seq<char>) -> bool {
    contains_seq(s, "<?"@) && contains_seq(s, "?>"@)
}

/// A comment line: carries both `<!--` and `-->`.
pub open spec fn spec_is_comment(s: Seq<char>) -> bool {
    contains_seq(s, "<!--"@) && contains_seq(s, "-->"@)
}

/// A bare inner-text line: non-empty and free of `<`, `>` and `/`.
pub open spec fn spec_is_bare_text(s: Seq<char>) -> bool {
    s.len() > 0 && !contains_char(s, '<') && !contains_char(s, '>') && !contains_char(s, '/')
}

/// Whether the line is a prolog declaration.
pub fn is_prolog(prolog: &String) -> (r: bool)
    ensures
        r == spec_is_prolog(prolog@),
{
    contains_substr(prolog.as_str(), "<?") && contains_substr(prolog.as_str(), "?>")
}

/// Whether the line is a comment.
pub fn is_comment(comment: &String) -> (r: bool)
    ensures
        r == spec_is_comment(comment@),
{
    contains_substr(comment.as_str(), "<!--") && contains_substr(comment.as_str(), "-->")
}

/// Whether the line is bare inner text for the preceding element.
pub fn is_newline_inner_element(line: &String) -> (r: bool)
    ensures
        r == spec_is_bare_text(line@),
{
    if line.as_str().unicode_len() == 0 {
        return false;
    }
    let has_lt = match find_char(line.as_str(), '<') {
        Some(_) => true,
        None => false,
    };
    let has_gt = match find_char(line.as_str(), '>') {
        Some(_) => true,
        None => false,
    };
    let has_sl = match find_char(line.as_str(), '/') {
        Some(_) => true,
        None => false,
    };
    !(has_lt || has_gt || has_sl)
}

// ---------------------------------------------------------------------------
// Tag extraction
// ---------------------------------------------------------------------------
/// The indices of the first `<` and the first `>`, when both exist and the
/// `<` comes first; the first tag is the span between them, inclusive.
pub open spec fn spec_tag_span(t: Seq<char>) -> Option<(int, int)> {
    match (spec_find_char(t, '<'), spec_find_char(t, '>')) {
        (Some(lt), Some(gt)) => if lt < gt {
            Some((lt, gt))
        } else {
            None
        },
        _ => None,
    }
}

/// The first `<...>` span of the line, empty when there is none.
pub open spec fn spec_first_tag(t: Seq<char>) -> Seq<char> {
    match spec_tag_span(t) {
        Some(sp) => t.subrange(sp.0, sp.1 + 1),
        None => Seq::empty(),
    }
}

/// Extracts the first `<...>` span of the line.
pub fn get_first_tag(line: &String) -> (r: String)
    requires
        spec_tag_span(line@) is Some,
    ensures
        r@ == spec_first_tag(line@),
{
    proof {
        lemma_spec_find_char(line@, '<');
        lemma_spec_find_char(line@, '>');
    }
    let n = line.as_str().unicode_len();
    match (find_char(line.as_str(), '<'), find_char(line.as_str(), '>')) {
        (Some(lt), Some(gt)) => String::from_str(line.as_str().substring_char(lt, gt + 1)),
        _ => {
            proof {
                assert(false);
            }
            String::new()
        },
    }
}

/// Inner text of a trailing fragment: everything before the first `</`, or
/// the whole fragment when no closing marker is present.
pub open spec fn spec_inner_text(s: Seq<char>) -> Seq<char> {
    match spec_find_seq(s, "</"@) {
        Some(i) => s.subrange(0, i),
        None => s,
    }
}

/// Extracts the inner text from the fragment that follows a tag.
pub fn get_inner_element(line: &String) -> (r: String)
    ensures
        r@ == spec_inner_text(line@),
{
    proof {
        lemma_spec_find_seq(line@, "</"@);
    }
    let n = line.as_str().unicode_len();
    match find_substr(line.as_str(), "</") {
        Some(i) => String::from_str(line.as_str().substring_char(0, i)),
        None => line.clone(),
    }
}

/// The tag-delimiter characters removed by [`trim_line`].
pub open spec fn is_delim(c: char) -> bool {
    c == '?' || c == '<' || c == '>' || c == '/'
}

/// `s` with every `?`, `<`, `>` and `/` removed.
pub open spec fn strip_delims(s: Seq<char>) -> Seq<char>
    decreases s.len(),
{
    if s.len() == 0 {
        Seq::empty()
    } else if is_delim(s.last()) {
        strip_delims(s.drop_last())
    } else {
        strip_delims(s.drop_last()).push(s.last())
    }
}

/// Removes every tag delimiter from the line.
pub fn trim_line(line: &String) -> (r: String)
    ensures
        r@ == strip_delims(line@),
{
    let s = line.as_str();
    let n = s.unicode_len();
    let mut r = String::new();
    let mut i: usize = 0;
    while i < n
        invariant
            n == s@.len(),
            0 <= i <= n,
            r@ == strip_delims(s@.subrange(0, i as int)),
        decreases n - i,
    {
        let c = s.get_char(i);
        proof {
            assert(s@.subrange(0, i + 1).drop_last() =~= s@.subrange(0, i as int));
            assert(s@.subrange(0, i + 1).last() == s@[i as int]);
        }
        if !(c == '?' || c == '<' || c == '>' || c == '/') {
            r.append(s.substring_char(i, i + 1));
            proof {
                assert(strip_delims(s@.subrange(0, i as int)) + s@.subrange(i as int, i + 1)
                    =~= strip_delims(s@.subrange(0, i as int)).push(s@[i as int]));
            }
        }
        i = i + 1;
    }
    proof {
        assert(s@.subrange(0, n as int) =~= s@);
    }
    r
}

/// `s` with every space removed, as applied to attribute keys.
pub open spec fn strip_spaces(s: Seq<char>) -> Seq<char>
    decreases s.len(),
{
    if s.len() == 0 {
        Seq::empty()
    } else if s.last() == ' ' {
        strip_spaces(s.drop_last())
    } else {
        strip_spaces(s.drop_last()).push(s.last())
    }
}

/// Removes every space from `s`.
fn remove_spaces(s: &str) -> (r: String)
    ensures
        r@ == strip_spaces(s@),
{
    let n = s.unicode_len();
    let mut r = String::new();
    let mut i: usize = 0;
    while i < n
        invariant
            n == s@.len(),
            0 <= i <= n,
            r@ == strip_spaces(s@.subrange(0, i as int)),
        decreases n - i,
    {
        let c = s.get_char(i);
        proof {
            assert(s@.subrange(0, i + 1).drop_last() =~= s@.subrange(0, i as int));
            assert(s@.subrange(0, i + 1).last() == s@[i as int]);
        }
        if !(c == ' ') {
            r.append(s.substring_char(i, i + 1));
            proof {
                assert(strip_spaces(s@.subrange(0, i as int)) + s@.subrange(i as int, i + 1)
                    =~= strip_spaces(s@.subrange(0, i as int)).push(s@[i as int]));
            }
        }
        i = i + 1;
    }
    proof {
        assert(s@.subrange(0, n as int) =~= s@);
    }
    r
}

/// The local name of a tag: the stripped tag text before the first space, the
/// whole stripped text when it has no space, and the sentinel `"ERROR!"` when
/// nothing is left after stripping.
pub open spec fn spec_find_name(line: Seq<char>) -> Seq<char> {
    let stripped = strip_delims(line);
    match spec_find_char(stripped, ' ') {
        Some(i) => stripped.subrange(0, i),
        None => if stripped.len() > 0 {
            stripped
        } else {
            "ERROR!"@
        },
    }
}

/// Extracts the tag's local name.
pub fn find_name(line: &String) -> (r: String)
    ensures
        r@ == spec_find_name(line@),
{
    let stripped = trim_line(line);
    proof {
        lemma_spec_find_char(stripped@, ' ');
    }
    let n = stripped.as_str().unicode_len();
    match find_char(stripped.as_str(), ' ') {
        Some(i) => String::from_str(stripped.as_str().substring_char(0, i)),
        None => {
            if n > 0 {
                stripped
            } else {
                String::from_str("ERROR!")
            }
        },
    }
}

/// What is left of a first tag once its delimiters and its name are removed:
/// the input the attribute extractor works on.
pub open spec fn spec_attr_src(first_tag: Seq<char>) -> Seq<char> {
    let stripped = strip_delims(first_tag);
    match spec_find_char(stripped, ' ') {
        Some(i) => stripped.skip(i),
        None => Seq::empty(),
    }
}

/// The attribute mapping denoted by an attribute fragment, accumulated onto
/// `acc`; `None` when the fragment is malformed (a missing `=`, an `=` too
/// close to an edge, or an unmatched quote).
pub open spec fn spec_parse_attrs(s: Seq<char>, acc: Map<Seq<char>, Seq<char>>) -> Option<
    Map<Seq<char>, Seq<char>>,
>
    decreases s.len(),
    via spec_parse_attrs_decreases
{
    if s.len() < 5 {
        Some(acc)
    } else {
        match spec_find_char(s, '=') {
            None => None,
            Some(e) => {
                if !(1 <= e && e + 2 <= s.len()) {
                    None
                } else {
                    let key = strip_spaces(s.subrange(1, e));
                    let rest = s.skip(e + 2);
                    match spec_find_char(rest, '"') {
                        None => None,
                        Some(v) => spec_parse_attrs(
                            rest.skip(v),
                            acc.insert(key, rest.subrange(0, v)),
                        ),
                    }
                }
            },
        }
    }
}

#[via_fn]
proof fn spec_parse_attrs_decreases(s: Seq<char>, acc: Map<Seq<char>, Seq<char>>) {
    if s.len() >= 5 {
        lemma_spec_find_char(s, '=');
        match spec_find_char(s, '=') {
            Some(e) => {
                if 1 <= e && e + 2 <= s.len() {
                    lemma_spec_find_char(s.skip(e + 2), '"');
                }
            },
            None => {},
        }
    }
}

/// Extracts the attribute mapping from an attribute fragment; `None` exactly
/// when the fragment is malformed.
pub fn find_attributes(line: &String) -> (r: Option<AttrMap>)
    ensures
        match r {
            Some(m) => m.wf() && spec_parse_attrs(line@, Map::empty()) == Some(m@),
            None => spec_parse_attrs(line@, Map::<Seq<char>, Seq<char>>::empty()) is None,
        },
{
    let mut acc = AttrMap::new();
    let mut cur: String = line.clone();
    let mut n = cur.as_str().unicode_len();
    while n >= 5
        invariant
            n == cur@.len(),
            acc.wf(),
            spec_parse_attrs(cur@, acc@) == spec_parse_attrs(
                line@,
                Map::<Seq<char>, Seq<char>>::empty(),
            ),
        decreases n,
    {
        proof {
            lemma_spec_find_char(cur@, '=');
        }
        let e = match find_char(cur.as_str(), '=') {
            Some(e) => e,
            None => {
                return None;
            },
        };
        if !(1 <= e && e <= n - 2) {
            return None;
        }
        let key = remove_spaces(cur.as_str().substring_char(1, e));
        let rest = String::from_str(cur.as_str().substring_char(e + 2, n));
        proof {
            assert(rest@ =~= cur@.skip(e + 2));
            lemma_spec_find_char(rest@, '"');
        }
        let v = match find_char(rest.as_str(), '"') {
            Some(v) => v,
            None => {
                return None;
            },
        };
        let value = String::from_str(rest.as_str().substring_char(0, v));
        let m = rest.as_str().unicode_len();
        let next = String::from_str(rest.as_str().substring_char(v, m));
        proof {
            assert(key@ == strip_spaces(cur@.subrange(1, e as int)));
            assert(value@ =~= rest@.subrange(0, v as int));
            assert(next@ =~= rest@.skip(v as int));
        }
        acc.insert(key, value);
        cur = next;
        n = cur.as_str().unicode_len();
    }
    Some(acc)
}

/// The count of leading space characters before the first `<` of the line;
/// zero when the line has no `<`.
pub open spec fn count_spaces(s: Seq<char>) -> int
    decreases s.len(),
{
    if s.len() == 0 {
        0
    } else {
        count_spaces(s.drop_last()) + if s.last() == ' ' {
            1int
        } else {
            0int
        }
    }
}

/// The indentation of a line: spaces before its first `<`.
pub open spec fn spec_indentation(s: Seq<char>) -> int {
    match spec_find_char(s, '<') {
        Some(i) => count_spaces(s.subrange(0, i)),
        None => 0,
    }
}

/// Counts the spaces before the first `<` of the line.
pub fn calculate_indentation(line: &String) -> (r: usize)
    ensures
        r as int == spec_indentation(line@),
{
    proof {
        lemma_spec_find_char(line@, '<');
    }
    match find_char(line.as_str(), '<') {
        Some(end) => {
            let mut cnt: usize = 0;
            let mut i: usize = 0;
            while i < end
                invariant
                    end < line@.len(),
                    0 <= i <= end,
                    0 <= cnt <= i,
                    cnt as int == count_spaces(line@.subrange(0, i as int)),
                decreases end - i,
            {
                proof {
                    assert(line@.subrange(0, i + 1).drop_last() =~= line@.subrange(0, i as int));
                    assert(line@.subrange(0, i + 1).last() == line@[i as int]);
                }
                if line.as_str().get_char(i) == ' ' {
                    cnt = cnt + 1;
                }
                i = i + 1;
            }
            cnt
        },
        None => 0,
    }
}


// ---------------------------------------------------------------------------
// The nesting tracker, specification side
// ---------------------------------------------------------------------------
/// The tracker state: the open-tag stack (name and id, outermost first) and
/// the records emitted so far.
#[verifier::ext_equal]
pub ghost struct BuildState {
    pub stack: Seq<(Seq<char>, int)>,
    pub nodes: Seq<NodeView>,
}

/// A fatal parse failure, with the index of the offending line.
#[derive(Debug, PartialEq, Eq)]
pub enum ParseError {
    /// A tag line whose first tag has no well-formed `<...>` span.
    MalformedTag { line: usize },
    /// A tag line whose attribute text has no well-formed key/value shape.
    MalformedAttributes { line: usize },
}

/// The line index an error reports.
pub open spec fn spec_error_line(e: ParseError) -> int {
    match e {
        ParseError::MalformedTag { line } => line as int,
        ParseError::MalformedAttributes { line } => line as int,
    }
}

/// Index of the first record carrying `id`, if any.
pub open spec fn spec_find_node(nodes: Seq<NodeView>, id: int) -> Option<int>
    decreases nodes.len(),
{
    if nodes.len() == 0 {
        None
    } else if nodes[0].id == id {
        Some(0int)
    } else {
        match spec_find_node(nodes.skip(1), id) {
            Some(j) => Some(j + 1),
            None => None,
        }
    }
}

/// `spec_find_node` returns exactly the first record carrying `id`.
pub proof fn lemma_spec_find_node(nodes: Seq<NodeView>, id: int)
    ensures
        match spec_find_node(nodes, id) {
            Some(j) => 0 <= j < nodes.len() && nodes[j].id == id && forall|l: int|
                0 <= l < j ==> nodes[l].id != id,
            None => forall|l: int| 0 <= l < nodes.len() ==> nodes[l].id != id,
        },
    decreases nodes.len(),
{
    if nodes.len() == 0 {
    } else if nodes[0].id == id {
    } else {
        lemma_spec_find_node(nodes.skip(1), id);
        let t = nodes.skip(1);
        assert(forall|l: int| 0 <= l < t.len() ==> t[l] == nodes[l + 1]);
        match spec_find_node(t, id) {
            Some(j) => {
                assert(nodes[j + 1] == t[j]);
                assert(forall|l: int| 1 <= l < j + 1 ==> nodes[l] == t[l - 1] && t[l - 1].id != id);
            },
            None => {
                assert forall|l: int| 0 <= l < nodes.len() implies nodes[l].id != id by {
                    if l > 0 {
                        assert(nodes[l] == t[l - 1]);
                    }
                }
            },
        }
    }
}

/// Resolves the parent of a freshly built record against the stack: the top
/// entry, or the entry under it when the top is the record itself.  Returns
/// the record list with the child link appended and the record with its
/// parent link set; both unchanged when no parent is found.
pub open spec fn spec_attach(
    stack: Seq<(Seq<char>, int)>,
    nodes: Seq<NodeView>,
    node0: NodeView,
) -> (Seq<NodeView>, NodeView) {
    if stack.len() == 0 {
        (nodes, node0)
    } else {
        let top = stack.last();
        let wanted = if stack.len() > 1 && top.1 == node0.id {
            stack[stack.len() - 2].1
        } else {
            top.1
        };
        match spec_find_node(nodes, wanted) {
            Some(j) => (
                nodes.update(j, NodeView { child: nodes[j].child.push(node0.id), ..nodes[j] }),
                NodeView { parent: Some(wanted), ..node0 },
            ),
            None => (nodes, node0),
        }
    }
}

/// One tag line: a matching name closes the top of the stack; anything else
/// opens a record, whose inline text or self-closing marker closes it on the
/// same line.  `None` when the line or its attributes are malformed.
pub open spec fn spec_process_node(st: BuildState, line: Seq<char>, id: int) -> Option<BuildState> {
    let trimmed = spec_trim_start(line);
    match spec_tag_span(trimmed) {
        None => None,
        Some(sp) => {
            let first_tag = trimmed.subrange(sp.0, sp.1 + 1);
            let name = spec_find_name(first_tag);
            if st.stack.len() > 0 && st.stack.last().0 == name {
                Some(BuildState { stack: st.stack.drop_last(), nodes: st.nodes })
            } else {
                match spec_parse_attrs(spec_attr_src(first_tag), Map::empty()) {
                    None => None,
                    Some(attrs) => {
                        let root = st.stack.len() == 0;
                        let remainder = trimmed.skip(sp.1 + 1);
                        let inline = remainder.len() > 0;
                        let self_closing = contains_seq(first_tag, "/>"@);
                        let stack2 = if inline || self_closing {
                            st.stack
                        } else {
                            st.stack.push((name, id))
                        };
                        let node0 = NodeView {
                            name: name,
                            root: root,
                            leaf: false,
                            child: Seq::empty(),
                            parent: None,
                            attribute: attrs,
                            inner_element: if inline {
                                spec_inner_text(remainder)
                            } else {
                                Seq::empty()
                            },
                            indentation: spec_indentation(line),
                            id: id,
                        };
                        let r = spec_attach(stack2, st.nodes, node0);
                        Some(BuildState { stack: stack2, nodes: r.0.push(r.1) })
                    },
                }
            }
        },
    }
}

/// One input line: prologs and comments are discarded, bare text rewrites the
/// inner text of the most recent record, and tag lines go through
/// [`spec_process_node`].
pub open spec fn spec_step(st: BuildState, line: Seq<char>, id: int) -> Option<BuildState> {
    if spec_is_prolog(line) {
        Some(st)
    } else if spec_is_comment(line) {
        Some(st)
    } else if spec_is_bare_text(line) {
        if st.nodes.len() > 0 {
            let last = st.nodes.last();
            Some(
                BuildState {
                    stack: st.stack,
                    nodes: st.nodes.update(
                        st.nodes.len() - 1,
                        NodeView { inner_element: spec_trim_start(line), ..last },
                    ),
                },
            )
        } else {
            Some(st)
        }
    } else {
        spec_process_node(st, line, id)
    }
}

/// The views of a list of lines.
pub open spec fn lines_view(lines: Seq<String>) -> Seq<Seq<char>> {
    lines.map_values(|l: String| l@)
}

/// The tracker state after the first `n` lines, starting from an empty stack
/// and an empty record list; `None` once any line was fatal.
pub open spec fn spec_build(lines: Seq<Seq<char>>, n: int) -> Option<BuildState>
    decreases n,
{
    if n <= 0 {
        Some(BuildState { stack: Seq::empty(), nodes: Seq::empty() })
    } else {
        match spec_build(lines, n - 1) {
            None => None,
            Some(st) => spec_step(st, lines[n - 1], n - 1),
        }
    }
}

/// The tracker state after the whole input.
pub open spec fn spec_process(lines: Seq<Seq<char>>) -> Option<BuildState> {
    spec_build(lines, lines.len() as int)
}

/// Once a line has failed, every longer prefix fails.
pub proof fn lemma_build_failure_persists(lines: Seq<Seq<char>>, n: int, m: int)
    requires
        0 <= n <= m,
        spec_build(lines, n) is None,
    ensures
        spec_build(lines, m) is None,
    decreases m - n,
{
    if m > n {
        lemma_build_failure_persists(lines, n, m - 1);
    }
}

// ---------------------------------------------------------------------------
// The nesting tracker, executable side
// ---------------------------------------------------------------------------
/// The view of the open-tag stack.
pub open spec fn stack_view(s: Seq<(String, usize)>) -> Seq<(Seq<char>, int)> {
    s.map_values(|p: (String, usize)| (p.0@, p.1 as int))
}

/// The views of the emitted records.
pub open spec fn nodes_view(ns: Seq<Node>) -> Seq<NodeView> {
    ns.map_values(|n: Node| n@)
}

/// Rewrites the inner text of the most recent record to the line, trimmed of
/// leading whitespace; with no record yet the line is dropped.
pub fn handle_inner_element(line: &String, all_nodes: &mut Vec<Node>)
    ensures
        old(all_nodes)@.len() == 0 ==> final(all_nodes)@ == old(all_nodes)@,
        old(all_nodes)@.len() > 0 ==> nodes_view(final(all_nodes)@) == nodes_view(
            old(all_nodes)@,
        ).update(
            old(all_nodes)@.len() - 1,
            NodeView {
                inner_element: spec_trim_start(line@),
                ..nodes_view(old(all_nodes)@).last()
            },
        ),
{
    let n = all_nodes.len();
    if n > 0 {
        let inner_text = trim_start(line.as_str());
        let parent_node = &mut all_nodes[n - 1];
        parent_node.set_inner_element(inner_text);
        proof {
            assert(nodes_view(final(all_nodes)@) =~= nodes_view(old(all_nodes)@).update(
                n - 1,
                NodeView {
                    inner_element: spec_trim_start(line@),
                    ..nodes_view(old(all_nodes)@).last()
                },
            ));
        }
    }
}

/// Index of the first record carrying `wanted`, if any.
fn find_node_index(all_nodes: &Vec<Node>, wanted: usize) -> (r: Option<usize>)
    ensures
        match r {
            Some(j) => j < all_nodes@.len() && all_nodes@[j as int].id == wanted && forall|l: int|
                0 <= l < j ==> all_nodes@[l].id != wanted,
            None => forall|l: int| 0 <= l < all_nodes@.len() ==> all_nodes@[l].id != wanted,
        },
{
    let n = all_nodes.len();
    let mut j: usize = 0;
    while j < n
        invariant
            n == all_nodes@.len(),
            0 <= j <= n,
            forall|l: int| 0 <= l < j ==> all_nodes@[l].id != wanted,
        decreases n - j,
    {
        if all_nodes[j].get_id() == wanted {
            return Some(j);
        }
        j = j + 1;
    }
    None
}

/// Wires the fresh record to its parent, resolved against the stack: sets the
/// record's parent id and appends its id to the parent's children.
pub fn set_relation(
    processing_nodes: &mut Vec<(String, usize)>,
    all_nodes: &mut Vec<Node>,
    current_node: &mut Node,
)
    ensures
        final(processing_nodes)@ == old(processing_nodes)@,
        ({
            let r = spec_attach(
                stack_view(old(processing_nodes)@),
                nodes_view(old(all_nodes)@),
                old(current_node)@,
            );
            nodes_view(final(all_nodes)@) == r.0 && final(current_node)@ == r.1
        }),
{
    let slen = processing_nodes.len();
    if slen == 0 {
        return ;
    }
    let top_id = processing_nodes[slen - 1].1;
    let wanted: usize = if slen > 1 && top_id == current_node.get_id() {
        processing_nodes[slen - 2].1
    } else {
        top_id
    };
    proof {
        lemma_spec_find_node(nodes_view(all_nodes@), wanted as int);
    }
    match find_node_index(all_nodes, wanted) {
        Some(j) => {
            proof {
                assert(forall|l: int|
                    0 <= l < all_nodes@.len() ==> nodes_view(all_nodes@)[l].id == all_nodes@[l].id);
                assert(spec_find_node(nodes_view(all_nodes@), wanted as int) == Some(j as int));
            }
            current_node.set_parent(wanted);
            let cid = current_node.get_id();
            let parent_node = &mut all_nodes[j];
            parent_node.set_child(cid);
            proof {
                let r = spec_attach(
                    stack_view(old(processing_nodes)@),
                    nodes_view(old(all_nodes)@),
                    old(current_node)@,
                );
                assert(nodes_view(final(all_nodes)@) =~~= r.0);
                assert(final(current_node)@ =~~= r.1);
            }
        },
        None => {
            proof {
                assert(forall|l: int|
                    0 <= l < all_nodes@.len() ==> nodes_view(all_nodes@)[l].id == all_nodes@[l].id);
                assert(spec_find_node(nodes_view(all_nodes@), wanted as int) is None);
            }
        },
    }
}


/// One tag line, executed against the live stack and record list; mirrors
/// [`spec_process_node`] and leaves both untouched on a malformed line.
pub fn process_node(
    line: &String,
    processing_nodes: &mut Vec<(String, usize)>,
    all_nodes: &mut Vec<Node>,
    node_id: usize,
) -> (r: Result<(), ParseError>)
    ensures
        ({
            let s1 = spec_process_node(
                BuildState {
                    stack: stack_view(old(processing_nodes)@),
                    nodes: nodes_view(old(all_nodes)@),
                },
                line@,
                node_id as int,
            );
            match r {
                Ok(_) => s1 matches Some(st1) && stack_view(final(processing_nodes)@) == st1.stack
                    && nodes_view(final(all_nodes)@) == st1.nodes,
                Err(e) => {
                    &&& s1 is None
                    &&& final(processing_nodes)@ == old(processing_nodes)@
                    &&& final(all_nodes)@ == old(all_nodes)@
                    &&& spec_error_line(e) == node_id
                    &&& (e matches ParseError::MalformedTag { .. } <==> spec_tag_span(
                        spec_trim_start(line@),
                    ) is None)
                },
            }
        }),
{
    let ghost st0 = BuildState {
        stack: stack_view(processing_nodes@),
        nodes: nodes_view(all_nodes@),
    };
    let indentation = calculate_indentation(line);
    let trimmed = trim_start(line.as_str());
    proof {
        lemma_spec_find_char(trimmed@, '<');
        lemma_spec_find_char(trimmed@, '>');
    }
    let tlen = trimmed.as_str().unicode_len();
    let (lt, gt) = match (find_char(trimmed.as_str(), '<'), find_char(trimmed.as_str(), '>')) {
        (Some(l), Some(g)) => (l, g),
        _ => {
            return Err(ParseError::MalformedTag { line: node_id });
        },
    };
    if lt >= gt {
        return Err(ParseError::MalformedTag { line: node_id });
    }
    proof {
        assert(spec_tag_span(trimmed@) == Some((lt as int, gt as int)));
    }
    let first_tag = get_first_tag(&trimmed);
    let node_name = find_name(&first_tag);
    let slen = processing_nodes.len();
    if slen > 0 {
        let is_closing = str_eq(processing_nodes[slen - 1].0.as_str(), node_name.as_str());
        if is_closing {
            proof {
                assert(stack_view(processing_nodes@).last() == (
                    processing_nodes@[slen - 1].0@,
                    processing_nodes@[slen - 1].1 as int,
                ));
            }
            processing_nodes.pop();
            proof {
                assert(stack_view(final(processing_nodes)@) =~~= st0.stack.drop_last());
            }
            return Ok(());
        }
    }
    let stripped = trim_line(&first_tag);
    proof {
        lemma_spec_find_char(stripped@, ' ');
    }
    let stlen = stripped.as_str().unicode_len();
    let attr_src: String = match find_char(stripped.as_str(), ' ') {
        Some(i) => String::from_str(stripped.as_str().substring_char(i, stlen)),
        None => String::new(),
    };
    proof {
        assert(attr_src@ =~= spec_attr_src(first_tag@));
    }
    let attributes = match find_attributes(&attr_src) {
        Some(m) => m,
        None => {
            return Err(ParseError::MalformedAttributes { line: node_id });
        },
    };
    let root: bool = slen == 0;
    let remainder = String::from_str(trimmed.as_str().substring_char(gt + 1, tlen));
    proof {
        assert(remainder@ =~= spec_trim_start(line@).skip(gt + 1));
    }
    let inline = remainder.as_str().unicode_len() > 0;
    let self_closing = contains_substr(first_tag.as_str(), "/>");
    let inner_element: Option<String> = if inline {
        Some(get_inner_element(&remainder))
    } else {
        None
    };
    if !(inline || self_closing) {
        let stack_name = node_name.clone();
        processing_nodes.push((stack_name, node_id));
        proof {
            assert(stack_view(processing_nodes@) =~~= st0.stack.push((node_name@, node_id as int)));
        }
    }
    let mut node = Node::new(
        node_name,
        root,
        false,
        attributes,
        inner_element,
        Some(indentation),
        node_id,
    );
    let ghost node0 = node@;
    proof {
        assert(node0.child =~= Seq::<int>::empty());
    }
    set_relation(processing_nodes, all_nodes, &mut node);
    all_nodes.push(node);
    proof {
        let s1 = spec_process_node(st0, line@, node_id as int);
        let r2 = spec_attach(stack_view(processing_nodes@), st0.nodes, node0);
        assert(nodes_view(final(all_nodes)@) =~~= r2.0.push(r2.1));
        assert(s1 matches Some(st1) && st1.stack == stack_view(processing_nodes@) && st1.nodes
            == r2.0.push(r2.1));
    }
    Ok(())
}


/// Runs the whole pipeline over the input lines: classification, extraction
/// and nesting, returning the emitted records in order, or the first fatal
/// line.
pub fn process_line_list(lines: &Vec<String>) -> (r: Result<Vec<Node>, ParseError>)
    ensures
        ({
            let lv = lines_view(lines@);
            match r {
                Ok(nodes) => spec_process(lv) matches Some(st) && nodes_view(nodes@) == st.nodes,
                Err(e) => {
                    let l = spec_error_line(e);
                    &&& spec_process(lv) is None
                    &&& 0 <= l < lv.len()
                    &&& spec_build(lv, l) matches Some(st) && spec_step(st, lv[l], l) is None
                    &&& (e matches ParseError::MalformedTag { .. } <==> spec_tag_span(
                        spec_trim_start(lv[l]),
                    ) is None)
                },
            }
        }),
{
    let ghost lv = lines_view(lines@);
    let mut processing_nodes: Vec<(String, usize)> = Vec::new();
    let mut all_nodes: Vec<Node> = Vec::new();
    let n = lines.len();
    proof {
        assert(stack_view(processing_nodes@) =~= Seq::<(Seq<char>, int)>::empty());
        assert(nodes_view(all_nodes@) =~= Seq::<NodeView>::empty());
    }
    let mut id: usize = 0;
    while id < n
        invariant
            n == lines@.len(),
            lv == lines_view(lines@),
            0 <= id <= n,
            spec_build(lv, id as int) matches Some(st) && st.stack == stack_view(
                processing_nodes@,
            ) && st.nodes == nodes_view(all_nodes@),
        decreases n - id,
    {
        let ghost st0 = BuildState {
            stack: stack_view(processing_nodes@),
            nodes: nodes_view(all_nodes@),
        };
        proof {
            assert(lv[id as int] == lines@[id as int]@);
            assert(spec_build(lv, id as int) == Some(st0));
        }
        let line = &lines[id];
        if is_prolog(line) {
            // reported and discarded: never a record, never a stack change
        } else if is_comment(line) {
            // reported and discarded: never a record, never a stack change
        } else if is_newline_inner_element(line) {
            handle_inner_element(line, &mut all_nodes);
            proof {
                assert(spec_step(st0, lv[id as int], id as int) matches Some(st1) && st1.stack
                    == stack_view(processing_nodes@) && st1.nodes == nodes_view(all_nodes@));
            }
        } else {
            match process_node(line, &mut processing_nodes, &mut all_nodes, id) {
                Ok(_) => {},
                Err(e) => {
                    proof {
                        assert(spec_step(st0, lv[id as int], id as int) is None);
                        assert(spec_build(lv, id + 1) is None);
                        lemma_build_failure_persists(lv, id + 1, lv.len() as int);
                    }
                    return Err(e);
                },
            }
        }
        id = id + 1;
    }
    Ok(all_nodes)
}

/// Builds the id-to-record index over the finished record list; with
/// duplicate ids (which a parse never emits) the later record wins.
pub fn tree_id_to_node<'a>(all_nodes: &'a Vec<Node>) -> (m: HashMap<usize, &'a Node>)
    ensures
        forall|id: usize|
            #[trigger] m@.contains_key(id) <==> exists|i: int|
                0 <= i < all_nodes@.len() && all_nodes@[i].id == id,
        forall|i: int|
            #![trigger all_nodes@[i]]
            0 <= i < all_nodes@.len() && (forall|j: int|
                i < j < all_nodes@.len() ==> all_nodes@[j].id != all_nodes@[i].id) ==> {
                &&& m@.contains_key(all_nodes@[i].id)
                &&& *m@[all_nodes@[i].id] == all_nodes@[i]
            },
{
    broadcast use vstd::std_specs::hash::group_hash_axioms;

    let mut result: HashMap<usize, &Node> = HashMap::new();
    let n = all_nodes.len();
    let mut i: usize = 0;
    while i < n
        invariant
            n == all_nodes@.len(),
            0 <= i <= n,
            forall|id: usize|
                #[trigger] result@.contains_key(id) <==> exists|k: int|
                    0 <= k < i && all_nodes@[k].id == id,
            forall|k: int|
                #![trigger all_nodes@[k]]
                0 <= k < i && (forall|j: int| k < j < i ==> all_nodes@[j].id != all_nodes@[k].id)
                    ==> {
                    &&& result@.contains_key(all_nodes@[k].id)
                    &&& *result@[all_nodes@[k].id] == all_nodes@[k]
                },
        decreases n - i,
    {
        let node = &all_nodes[i];
        result.insert(node.get_id(), node);
        i = i + 1;
    }
    result
}


// ---------------------------------------------------------------------------
// Laws of the tracker
// ---------------------------------------------------------------------------
/// Prolog and comment lines never produce a record and never alter the
/// open-tag stack.
pub proof fn lemma_prolog_comment_inert(st: BuildState, line: Seq<char>, id: int)
    requires
        spec_is_prolog(line) || spec_is_comment(line),
    ensures
        spec_step(st, line, id) == Some(st),
{
}

/// A bare-text line never produces a record and never alters the stack; with
/// no record yet it changes nothing at all.
pub proof fn lemma_bare_text_no_record(st: BuildState, line: Seq<char>, id: int)
    requires
        spec_is_bare_text(line),
    ensures
        spec_step(st, line, id) matches Some(st1) && st1.stack == st.stack && st1.nodes.len()
            == st.nodes.len(),
        st.nodes.len() == 0 ==> spec_step(st, line, id) == Some(st),
{
}

/// A tag line that opens a record: it is classified as a tag, its first tag
/// span is well formed, and its name does not match the top of the stack.
pub open spec fn spec_is_opening(st: BuildState, line: Seq<char>) -> bool {
    &&& !spec_is_prolog(line)
    &&& !spec_is_comment(line)
    &&& !spec_is_bare_text(line)
    &&& spec_tag_span(spec_trim_start(line)) is Some
    &&& !(st.stack.len() > 0 && st.stack.last().0 == spec_find_name(
        spec_first_tag(spec_trim_start(line)),
    ))
}

/// Each successfully processed line emits at most one record: exactly one
/// when it opens an element, none otherwise.
pub proof fn lemma_step_record_count(st: BuildState, line: Seq<char>, id: int)
    requires
        spec_step(st, line, id) is Some,
    ensures
        spec_step(st, line, id) matches Some(st1) && st1.nodes.len() == st.nodes.len() + (
        if spec_is_opening(st, line) {
            1int
        } else {
            0int
        }),
{
    if spec_is_prolog(line) || spec_is_comment(line) || spec_is_bare_text(line) {
    } else {
        let trimmed = spec_trim_start(line);
        match spec_tag_span(trimmed) {
            None => {},
            Some(sp) => {
                let first_tag = trimmed.subrange(sp.0, sp.1 + 1);
                let name = spec_find_name(first_tag);
                if st.stack.len() > 0 && st.stack.last().0 == name {
                } else {
                    match spec_parse_attrs(spec_attr_src(first_tag), Map::empty()) {
                        None => {},
                        Some(attrs) => {
                            assert(spec_is_opening(st, line));
                            let remainder = trimmed.skip(sp.1 + 1);
                            let inline = remainder.len() > 0;
                            let self_closing = contains_seq(first_tag, "/>"@);
                            let stack2 = if inline || self_closing {
                                st.stack
                            } else {
                                st.stack.push((name, id))
                            };
                            let node0 = NodeView {
                                name: name,
                                root: st.stack.len() == 0,
                                leaf: false,
                                child: Seq::empty(),
                                parent: None,
                                attribute: attrs,
                                inner_element: if inline {
                                    spec_inner_text(remainder)
                                } else {
                                    Seq::empty()
                                },
                                indentation: spec_indentation(line),
                                id: id,
                            };
                            if stack2.len() > 0 {
                                let top = stack2.last();
                                let wanted = if stack2.len() > 1 && top.1 == node0.id {
                                    stack2[stack2.len() - 2].1
                                } else {
                                    top.1
                                };
                                lemma_spec_find_node(st.nodes, wanted);
                            }
                            let r = spec_attach(stack2, st.nodes, node0);
                            assert(r.0.len() == st.nodes.len());
                            assert(spec_step(st, line, id) == Some(
                                BuildState { stack: stack2, nodes: r.0.push(r.1) },
                            ));
                        },
                    }
                }
            },
        }
    }
}

/// An emitted record is a root exactly when its opening line saw an empty
/// ancestor stack.
pub proof fn lemma_root_iff_empty_stack(st: BuildState, line: Seq<char>, id: int)
    requires
        spec_is_opening(st, line),
        spec_step(st, line, id) is Some,
    ensures
        spec_step(st, line, id) matches Some(st1) && st1.nodes.last().root == (st.stack.len()
            == 0),
        spec_step(st, line, id) matches Some(st1) && st1.nodes.last().id == id,
{
}

/// The number of opening-tag lines among the first `n` lines.
pub open spec fn spec_open_count(lines: Seq<Seq<char>>, n: int) -> int
    decreases n,
{
    if n <= 0 {
        0
    } else {
        spec_open_count(lines, n - 1) + (match spec_build(lines, n - 1) {
            Some(st) => if spec_is_opening(st, lines[n - 1]) {
                1int
            } else {
                0int
            },
            None => 0int,
        })
    }
}

/// Over any well-formed input, the number of emitted records equals the
/// number of opening-tag lines.
pub proof fn lemma_record_count(lines: Seq<Seq<char>>, n: int)
    requires
        0 <= n,
        spec_build(lines, n) is Some,
    ensures
        spec_build(lines, n) matches Some(st) && st.nodes.len() == spec_open_count(lines, n),
    decreases n,
{
    if n > 0 {
        match spec_build(lines, n - 1) {
            Some(stp) => {
                lemma_record_count(lines, n - 1);
                lemma_step_record_count(stp, lines[n - 1], n - 1);
            },
            None => {
                assert(false);
            },
        }
    }
}

/// Record ids strictly increase along the record list.
pub open spec fn ids_increasing(nodes: Seq<NodeView>) -> bool {
    forall|i: int, j: int| 0 <= i < j < nodes.len() ==> nodes[i].id < nodes[j].id
}

/// Parent and child links agree: a record points at its parent exactly when
/// the parent lists it as a child.
pub open spec fn links_symmetric(nodes: Seq<NodeView>) -> bool {
    &&& forall|i: int|
        #![trigger nodes[i].parent]
        0 <= i < nodes.len() ==> match nodes[i].parent {
            Some(p) => exists|j: int|
                0 <= j < nodes.len() && nodes[j].id == p && nodes[j].child.contains(nodes[i].id),
            None => true,
        }
    &&& forall|j: int, k: int|
        #![trigger nodes[j].child[k]]
        0 <= j < nodes.len() && 0 <= k < nodes[j].child.len() ==> exists|i: int|
            0 <= i < nodes.len() && nodes[i].id == nodes[j].child[k] && nodes[i].parent == Some(
                nodes[j].id,
            )
}

/// Every child list strictly increases.
pub open spec fn children_increasing(nodes: Seq<NodeView>) -> bool {
    forall|j: int, k1: int, k2: int|
        0 <= j < nodes.len() && 0 <= k1 < k2 < nodes[j].child.len() ==> nodes[j].child[k1]
            < nodes[j].child[k2]
}

} // verus!
