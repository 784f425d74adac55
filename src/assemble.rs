//! The assembler: a parsed controller split into its instruction sequence
//! and a table from each label to where its instructions start.

use vstd::prelude::*;
use crate::parser::{parse, RMLNode};
use crate::syntax::{parse_text, NodeModel};
use crate::text::push_char;

verus! {

/// The instructions of a controller: every node but the label declarations,
/// in order.
pub open spec fn instructions_of(ns: Seq<NodeModel>) -> Seq<NodeModel>
    decreases ns.len(),
{
    if ns.len() == 0 {
        Seq::empty()
    } else if ns.last() is Symbol {
        instructions_of(ns.drop_last())
    } else {
        instructions_of(ns.drop_last()).push(ns.last())
    }
}

/// Each label declaration, in order, with the number of instructions before
/// it: the index at which its instructions start.
pub open spec fn label_entries(ns: Seq<NodeModel>) -> Seq<(Seq<char>, nat)>
    decreases ns.len(),
{
    if ns.len() == 0 {
        Seq::empty()
    } else if ns.last() is Symbol {
        label_entries(ns.drop_last()).push(
            (ns.last()->Symbol_0, instructions_of(ns.drop_last()).len()),
        )
    } else {
        label_entries(ns.drop_last())
    }
}

/// Two label declarations of one name.
pub open spec fn has_duplicate_label(ns: Seq<NodeModel>) -> bool {
    exists|i: int, j: int|
        0 <= i < j < ns.len() && #[trigger] ns[i] is Symbol && #[trigger] ns[j] is Symbol
            && ns[i]->Symbol_0 == ns[j]->Symbol_0
}

/// The label table of an assembled program, as names and start indices.
pub open spec fn label_view(labels: Seq<(String, usize)>) -> Seq<(Seq<char>, nat)> {
    Seq::new(labels.len(), |i: int| (labels[i].0@, labels[i].1 as nat))
}

/// The label names in `entries` are distinct.
pub open spec fn unique_names(entries: Seq<(Seq<char>, nat)>) -> bool {
    forall|i: int, j: int|
        0 <= i < j < entries.len() ==> #[trigger] entries[i].0 != #[trigger] entries[j].0
}

proof fn lemma_entries_are_declarations(ns: Seq<NodeModel>, k: int)
    requires
        0 <= k < label_entries(ns).len(),
    ensures
        exists|p: int|
            0 <= p < ns.len() && #[trigger] ns[p] is Symbol && ns[p]->Symbol_0 == label_entries(
                ns,
            )[k].0,
    decreases ns.len(),
{
    if ns.len() > 0 {
        let prev = ns.drop_last();
        if ns.last() is Symbol && k == label_entries(prev).len() {
            assert(ns[ns.len() - 1] is Symbol);
        } else {
            lemma_entries_are_declarations(prev, k);
            let p = choose|p: int|
                0 <= p < prev.len() && #[trigger] prev[p] is Symbol && prev[p]->Symbol_0
                    == label_entries(prev)[k].0;
            assert(ns[p] == prev[p]);
        }
    }
}

proof fn lemma_declarations_have_entries(ns: Seq<NodeModel>, p: int)
    requires
        0 <= p < ns.len(),
        ns[p] is Symbol,
    ensures
        exists|k: int|
            0 <= k < label_entries(ns).len() && #[trigger] label_entries(ns)[k].0
                == ns[p]->Symbol_0,
    decreases ns.len(),
{
    let prev = ns.drop_last();
    if p == ns.len() - 1 {
        assert(ns.last() == ns[p]);
        let k = label_entries(prev).len() as int;
        assert(label_entries(ns)[k].0 == ns[p]->Symbol_0);
    } else {
        lemma_declarations_have_entries(prev, p);
        let k = choose|k: int|
            0 <= k < label_entries(prev).len() && #[trigger] label_entries(prev)[k].0
                == prev[p]->Symbol_0;
        if ns.last() is Symbol {
            assert(label_entries(ns)[k] == label_entries(prev)[k]);
        }
        assert(prev[p] == ns[p]);
        assert(label_entries(ns)[k].0 == ns[p]->Symbol_0);
    }
}

/// Split parsed nodes into instructions and a label table.
pub fn assemble_nodes(nodes: Vec<RMLNode>) -> (r: Result<(Vec<RMLNode>, Vec<(String, usize)>), String>)
    ensures
        r is Err <==> has_duplicate_label(RMLNode::models(nodes@)),
        r is Ok ==> RMLNode::models(r->Ok_0.0@) == instructions_of(RMLNode::models(nodes@)),
        r is Ok ==> label_view(r->Ok_0.1@) == label_entries(RMLNode::models(nodes@)),
{
    let ghost ns = RMLNode::models(nodes@);
    let count = nodes.len();
    assert(ns.len() == count);
    assert(forall|j: int| 0 <= j < nodes.len() ==> #[trigger] nodes[j].model() == ns[j]);
    let mut insts: Vec<RMLNode> = Vec::new();
    let mut labels: Vec<(String, usize)> = Vec::new();
    let mut i: usize = 0;
    let mut rest: Vec<RMLNode> = Vec::new();
    let mut source = nodes;
    while source.len() > 0
        invariant
            rest.len() + source.len() == ns.len(),
            forall|j: int| 0 <= j < source.len() ==> #[trigger] source[j].model() == ns[j],
            forall|j: int| 0 <= j < rest.len() ==> #[trigger] rest[j].model() == ns[ns.len() - 1 - j],
        decreases source.len(),
    {
        let x = source.pop().unwrap();
        rest.push(x);
    }
    while rest.len() > 0
        invariant
            i + rest.len() == ns.len(),
            ns.len() <= usize::MAX,
            ns == RMLNode::models(nodes@),
            forall|j: int| 0 <= j < rest.len() ==> #[trigger] rest[j].model() == ns[ns.len() - 1 - j],
            RMLNode::models(insts@) == instructions_of(ns.subrange(0, i as int)),
            label_view(labels@) == label_entries(ns.subrange(0, i as int)),
            unique_names(label_view(labels@)),
        decreases rest.len(),
    {
        assert(i < ns.len());
        let node = rest.pop().unwrap();
        let ghost pre = ns.subrange(0, i as int);
        proof {
            assert(ns.subrange(0, i + 1).drop_last() =~= pre);
            assert(ns.subrange(0, i + 1).last() == node.model());
        }
        match node {
            RMLNode::Symbol(label) => {
                let mut k: usize = 0;
                while k < labels.len()
                    invariant
                        k <= labels.len(),
                        forall|m: int| 0 <= m < k ==> labels[m].0@ != label@,
                        label_view(labels@) == label_entries(pre),
                        pre == ns.subrange(0, i as int),
                        i < ns.len(),
                        ns == RMLNode::models(nodes@),
                        ns[i as int] == RMLNode::Symbol(label).model(),
                    decreases labels.len() - k,
                {
                    if labels[k].0 == label {
                        proof {
                            assert(label_view(labels@)[k as int].0 == label@);
                            lemma_entries_are_declarations(pre, k as int);
                            let p = choose|p: int|
                                0 <= p < pre.len() && #[trigger] pre[p] is Symbol
                                    && pre[p]->Symbol_0 == label_entries(pre)[k as int].0;
                            assert(ns[p] == pre[p]);
                            assert(ns[i as int] is Symbol);
                            assert(ns[i as int]->Symbol_0 == label@);
                            assert(p < i);
                            assert(ns[p]->Symbol_0 == ns[i as int]->Symbol_0);
                            assert(has_duplicate_label(ns));
                        }
                        let mut msg = String::new();
                        let prefix = "[ASSEMBLE] Duplicated label: ";
                        append_str(&mut msg, prefix);
                        append_str(&mut msg, label.as_str());
                        return Err(msg);
                    }
                    k += 1;
                }
                let ghost before = labels@;
                labels.push((label, insts.len()));
                proof {
                    assert(label_view(labels@) =~= label_view(before).push(
                        (node.model()->Symbol_0, instructions_of(pre).len()),
                    ));
                }
            },
            _ => {
                let ghost before = insts@;
                insts.push(node);
                proof {
                    assert(RMLNode::models(insts@) =~= RMLNode::models(before).push(node.model()));
                }
            },
        }
        i += 1;
    }
    proof {
        assert(ns.subrange(0, ns.len() as int) =~= ns);
        if has_duplicate_label(ns) {
            let (a, b) = choose|a: int, b: int|
                0 <= a < b < ns.len() && #[trigger] ns[a] is Symbol && #[trigger] ns[b] is Symbol
                    && ns[a]->Symbol_0 == ns[b]->Symbol_0;
            lemma_no_duplicates(ns, a, b);
        }
    }
    Ok((insts, labels))
}

proof fn lemma_no_duplicates(ns: Seq<NodeModel>, a: int, b: int)
    requires
        unique_names(label_entries(ns)),
        0 <= a < b < ns.len(),
        ns[a] is Symbol,
        ns[b] is Symbol,
    ensures
        ns[a]->Symbol_0 != ns[b]->Symbol_0,
    decreases ns.len(),
{
    let prev = ns.drop_last();
    assert(unique_names(label_entries(prev))) by {
        if ns.last() is Symbol {
            assert forall|i: int, j: int|
                0 <= i < j < label_entries(prev).len() implies #[trigger] label_entries(prev)[i].0
                != #[trigger] label_entries(prev)[j].0 by {
                assert(label_entries(ns)[i] == label_entries(prev)[i]);
                assert(label_entries(ns)[j] == label_entries(prev)[j]);
            }
        }
    }
    if b == ns.len() - 1 {
        lemma_declarations_have_entries(prev, a);
        let k = choose|k: int|
            0 <= k < label_entries(prev).len() && #[trigger] label_entries(prev)[k].0
                == prev[a]->Symbol_0;
        let last = label_entries(prev).len() as int;
        assert(label_entries(ns)[k] == label_entries(prev)[k]);
        assert(label_entries(ns)[last].0 == ns[b]->Symbol_0);
    } else {
        assert(prev[a] == ns[a] && prev[b] == ns[b]);
        lemma_no_duplicates(prev, a, b);
    }
}

/// Append the characters of `t` to `s`.
pub fn append_str(s: &mut String, t: &str)
    ensures
        final(s)@ == old(s)@ + t@,
{
    let cs = crate::text::chars_of(t);
    let mut i: usize = 0;
    while i < cs.len()
        invariant
            i <= cs.len(),
            cs@ == t@,
            s@ == old(s)@ + t@.subrange(0, i as int),
        decreases cs.len() - i,
    {
        push_char(s, cs[i]);
        i += 1;
        proof {
            assert(s@ =~= old(s)@ + t@.subrange(0, i as int));
        }
    }
    proof {
        assert(t@.subrange(0, t@.len() as int) =~= t@);
    }
}

/// The assembler's entry: parse a controller text, then split it into
/// instructions and a label table. Fails on text that does not parse and on a
/// label declared twice.
pub fn assemble(controller_text: &str) -> (r: Result<(Vec<RMLNode>, Vec<(String, usize)>), String>)
    ensures
        parse_text(controller_text@) is Err ==> r is Err,
        parse_text(controller_text@) is Ok ==> {
            let ns = parse_text(controller_text@)->Ok_0;
            &&& r is Err <==> has_duplicate_label(ns)
            &&& r is Ok ==> RMLNode::models(r->Ok_0.0@) == instructions_of(ns)
            &&& r is Ok ==> label_view(r->Ok_0.1@) == label_entries(ns)
        },
{
    match parse(controller_text) {
        Ok(nodes) => assemble_nodes(nodes),
        Err(_) => {
            let mut msg = String::new();
            append_str(&mut msg, "[ASSEMBLE] Unable to parse the controller text");
            Err(msg)
        },
    }
}

/// Each label's instructions are a suffix of the instruction sequence: its
/// start index lies within the sequence. Labels declared later start no
/// earlier, so their suffixes are no longer.
pub proof fn lemma_labels_are_suffixes(ns: Seq<NodeModel>)
    ensures
        forall|k: int|
            0 <= k < label_entries(ns).len() ==> #[trigger] label_entries(ns)[k].1
                <= instructions_of(ns).len(),
        forall|a: int, b: int|
            0 <= a < b < label_entries(ns).len() ==> #[trigger] label_entries(ns)[a].1
                <= #[trigger] label_entries(ns)[b].1,
    decreases ns.len(),
{
    if ns.len() > 0 {
        let prev = ns.drop_last();
        lemma_labels_are_suffixes(prev);
        let n = label_entries(prev).len() as int;
        assert forall|k: int|
            0 <= k < label_entries(ns).len() implies #[trigger] label_entries(ns)[k].1
            <= instructions_of(ns).len() by {
            if k < n {
                assert(label_entries(ns)[k] == label_entries(prev)[k]);
            }
        }
        assert forall|a: int, b: int|
            0 <= a < b < label_entries(ns).len() implies #[trigger] label_entries(ns)[a].1
            <= #[trigger] label_entries(ns)[b].1 by {
            assert(label_entries(ns)[a] == label_entries(prev)[a]);
            if b < n {
                assert(label_entries(ns)[b] == label_entries(prev)[b]);
            }
        }
    }
}

} // verus!
