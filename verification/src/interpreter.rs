//! The text of the C file that a syntax tree becomes, and the name of
//! that file.

use crate::error::{CompileError, Failure, Place};
use crate::nodes::{render, Ast, Node};
use crate::nodes::binary_expression::node_asts;
use crate::parser::{Variables, VarType};
use crate::text::{chars_of, push_char};
use vstd::prelude::*;
use vstd::string::StringExecFns;

verus! {

/// A C file to be written: its name and its text.
#[derive(Debug, Clone, PartialEq)]
pub struct Artifact {
    pub file_name: String,
    pub file_data: String,
}

/// The C text of a list of top-level trees, one after the other; `None`
/// where one of them cannot be written out.
pub open spec fn render_all(trees: Seq<Ast>, vars: Map<Seq<char>, VarType>) -> Option<Seq<char>>
    decreases trees.len(),
{
    if trees.len() == 0 {
        Some(Seq::empty())
    } else {
        match (render_all(trees.drop_last(), vars), render(trees.last(), vars)) {
            (Some(before), Some(text)) => Some(before + text),
            _ => None,
        }
    }
}

/// The text of the C file: the line that includes the standard
/// input/output header, then the text of each top-level tree in source
/// order.
pub open spec fn program_text(trees: Seq<Ast>, vars: Map<Seq<char>, VarType>) -> Option<
    Seq<char>,
> {
    match render_all(trees, vars) {
        Some(text) => Some("#include<stdio.h>\n"@ + text),
        None => None,
    }
}

/// The name of the C file of a source file: the name without its last
/// three characters, the dot and the two letters of the extension, and
/// with `.c` in their place.
pub open spec fn c_file_name(file_name: Seq<char>) -> Seq<char> {
    file_name.subrange(0, file_name.len() - 3) + ".c"@
}

/// Top-level trees of which a beginning cannot be written out cannot be
/// written out.
pub proof fn lemma_render_all_prefix(trees: Seq<Ast>, k: int, vars: Map<Seq<char>, VarType>)
    requires
        0 <= k <= trees.len(),
        render_all(trees.subrange(0, k), vars).is_none(),
    ensures
        render_all(trees, vars).is_none(),
    decreases trees.len(),
{
    if k == trees.len() {
        assert(trees.subrange(0, k) =~= trees);
    } else {
        assert(trees.drop_last().subrange(0, k) =~= trees.subrange(0, k));
        lemma_render_all_prefix(trees.drop_last(), k, vars);
    }
}

/// The first top-level tree that cannot be written out; the number of
/// trees where every tree can.
pub open spec fn first_unrendered(trees: Seq<Ast>, vars: Map<Seq<char>, VarType>) -> int
    decreases trees.len(),
{
    if trees.len() == 0 || render(trees[0], vars).is_none() {
        0
    } else {
        1 + first_unrendered(trees.skip(1), vars)
    }
}

/// Writes out the whole tree as the C file of the source file
/// `file_name`, whose name needs an extension of two letters after a dot.
/// Nothing is written to disk: the result holds the name and the text. A
/// tree that cannot be written out gives a render error, with the place
/// of the first top-level node that cannot.
pub fn interpret(nodes: Vec<Node>, file_name: String, variables: &Variables) -> (r: Result<
    Artifact,
    Failure,
>)
    requires
        file_name@.len() >= 3,
    ensures
        match program_text(node_asts(nodes@), variables@) {
            Some(text) => r.is_ok() && r.unwrap().file_data@ == text && r.unwrap().file_name@
                == c_file_name(file_name@),
            None => r.is_err() && r.unwrap_err().error == CompileError::Render
                && r.unwrap_err().place == Place::Node(
                first_unrendered(node_asts(nodes@), variables@) as usize,
            ),
        },
{
    let name = chars_of(file_name.as_str());
    let mut out_name: String = String::new();
    let mut j: usize = 0;
    while j < name.len() - 3
        invariant
            name@ == file_name@,
            name.len() >= 3,
            j <= name.len() - 3,
            out_name@ == name@.subrange(0, j as int),
        decreases name.len() - j,
    {
        push_char(&mut out_name, name[j]);
        j = j + 1;
        assert(out_name@ =~= name@.subrange(0, j as int));
    }
    out_name.append(".c");
    let ghost all = node_asts(nodes@);
    let mut file_data: String = "#include<stdio.h>\n".to_owned();
    let mut i: usize = 0;
    assert(all.subrange(0, 0) =~= Seq::<Ast>::empty());
    assert(all.skip(0) =~= all);
    assert("#include<stdio.h>\n"@ + Seq::<char>::empty() =~= "#include<stdio.h>\n"@);
    while i < nodes.len()
        invariant
            i <= nodes.len(),
            all == node_asts(nodes@),
            match render_all(all.subrange(0, i as int), variables@) {
                Some(text) => file_data@ == "#include<stdio.h>\n"@ + text,
                None => false,
            },
            first_unrendered(all, variables@) == i + first_unrendered(
                all.skip(i as int),
                variables@,
            ),
        decreases nodes.len() - i,
    {
        proof {
            let next = all.subrange(0, i + 1);
            assert(next.drop_last() =~= all.subrange(0, i as int));
            assert(next.last() == nodes@[i as int]@);
            assert(all.skip(i as int)[0] == nodes@[i as int]@);
            assert(all.skip(i as int).skip(1) =~= all.skip(i + 1));
        }
        let ghost before = render_all(all.subrange(0, i as int), variables@).unwrap();
        match nodes[i].to_c(variables) {
            Err(e) => {
                proof {
                    lemma_render_all_prefix(all, i + 1, variables@);
                }
                return Err(Failure { error: e, place: Place::Node(i) });
            },
            Ok(text) => {
                file_data.append(text.as_str());
                assert(file_data@ =~= "#include<stdio.h>\n"@ + (before + text@));
            },
        }
        i = i + 1;
    }
    assert(all.subrange(0, i as int) =~= all);
    Ok(Artifact { file_name: out_name, file_data: file_data })
}

} // verus!
