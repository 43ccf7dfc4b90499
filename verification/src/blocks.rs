//! Basic blocks from a flat list of labels and instructions.
//!
//! A block begins at every label, at the first instruction of a function,
//! and at an instruction that follows a jump, branch or return. It ends
//! with that instruction, or where the next block begins.

use crate::model::{block_views, instr_views, label_view};
use crate::model::{BasicBlock, BlockView, InstrView, Instruction};
use vstd::prelude::*;

verus! {

/// One item of the body of a function as it is written: a label, or an
/// instruction.
#[derive(Clone, Debug)]
pub enum Code {
    Label(String),
    Instr(Instruction),
}

/// `Code` as a mathematical value.
pub enum CodeView {
    Label(Seq<char>),
    Instr(InstrView),
}

impl View for Code {
    type V = CodeView;

    open spec fn view(&self) -> CodeView {
        match self {
            Code::Label(l) => CodeView::Label(l@),
            Code::Instr(i) => CodeView::Instr(i@),
        }
    }
}

/// The views of a list of items.
pub open spec fn code_views(code: Seq<Code>) -> Seq<CodeView> {
    Seq::new(code.len(), |i: int| code[i]@)
}

/// The blocks formed so far, and whether the last of them is still open.
pub struct Formed {
    pub blocks: Seq<BlockView>,
    pub open: bool,
}

/// The blocks after one more item. A label opens a block of its own. An
/// instruction joins the open block, or opens an unlabelled block where none
/// is open; a jump, branch or return closes its block.
pub open spec fn form_step(formed: Formed, item: CodeView) -> Formed {
    match item {
        CodeView::Label(l) => Formed {
            blocks: formed.blocks.push(BlockView { label: Some(l), instrs: Seq::empty() }),
            open: true,
        },
        CodeView::Instr(i) => Formed {
            blocks: if formed.open && formed.blocks.len() > 0 {
                formed.blocks.update(
                    formed.blocks.len() - 1,
                    BlockView { instrs: formed.blocks.last().instrs.push(i), ..formed.blocks.last() },
                )
            } else {
                formed.blocks.push(BlockView { label: None, instrs: seq![i] })
            },
            open: !i.op.is_terminator(),
        },
    }
}

/// The blocks of the first `n` items.
pub open spec fn form_prefix(code: Seq<CodeView>, n: int) -> Formed
    decreases n,
{
    if n <= 0 {
        Formed { blocks: Seq::empty(), open: false }
    } else {
        form_step(form_prefix(code, n - 1), code[n - 1])
    }
}

/// The blocks of a function body.
pub open spec fn form_blocks_spec(code: Seq<CodeView>) -> Seq<BlockView> {
    form_prefix(code, code.len() as int).blocks
}

/// The items of a block as they are written: its label, if it has one, then
/// its instructions.
pub open spec fn block_code(block: BlockView) -> Seq<CodeView> {
    let instrs = Seq::new(block.instrs.len(), |i: int| CodeView::Instr(block.instrs[i]));
    match block.label {
        Some(l) => seq![CodeView::Label(l)] + instrs,
        None => instrs,
    }
}

/// The items of the first `n` blocks, in order.
pub open spec fn blocks_code(blocks: Seq<BlockView>, n: int) -> Seq<CodeView>
    decreases n,
{
    if n <= 0 {
        Seq::empty()
    } else {
        blocks_code(blocks, n - 1) + block_code(blocks[n - 1])
    }
}

/// Whether a jump, branch or return stands only at the end of a block.
pub open spec fn ends_properly(block: BlockView) -> bool {
    forall|i: int|
        0 <= i < block.instrs.len() - 1 ==> !(#[trigger] block.instrs[i]).op.is_terminator()
}

/// Splits the body of a function into its basic blocks.
pub fn form_blocks(code: Vec<Code>) -> (r: Vec<BasicBlock>)
    ensures
        block_views(r@) == form_blocks_spec(code_views(code@)),
{
    let ghost items = code_views(code@);
    let n: usize = code.len();
    let mut code = code;
    let mut stack: Vec<Code> = Vec::new();
    while code.len() > 0
        invariant
            code@.len() + stack@.len() == n,
            forall|k: int| 0 <= k < code@.len() ==> (#[trigger] code@[k])@ == items[k],
            forall|k: int| 0 <= k < stack@.len() ==> (#[trigger] stack@[k])@ == items[n - 1 - k],
        decreases code@.len(),
    {
        match code.pop() {
            Some(item) => {
                stack.push(item);
            },
            None => {},
        }
    }
    let mut done: Vec<BasicBlock> = Vec::new();
    let mut label: Option<String> = None;
    let mut instrs: Vec<Instruction> = Vec::new();
    // Whether `label` and `instrs` hold a block that has begun.
    let mut begun: bool = false;
    // Whether that block still takes instructions.
    let mut open: bool = false;
    let mut i: usize = 0;
    while stack.len() > 0
        invariant
            i + stack@.len() == n,
            items.len() == n,
            forall|k: int| 0 <= k < stack@.len() ==> (#[trigger] stack@[k])@ == items[n - 1 - k],
            open ==> begun,
            form_prefix(items, i as int).open == open,
            form_prefix(items, i as int).blocks == if begun {
                block_views(done@).push(
                    BlockView { label: label_view(label), instrs: instr_views(instrs@) },
                )
            } else {
                block_views(done@)
            },
        decreases stack@.len(),
    {
        let ghost before = form_prefix(items, i as int);
        let ghost current = BlockView {
            label: label_view(label),
            instrs: instr_views(instrs@),
        };
        let ghost closed = block_views(done@);
        let ghost top = stack@[stack@.len() - 1]@;
        assert(top == items[i as int]);
        match stack.pop() {
            Some(Code::Label(l)) => {
                if begun {
                    done.push(BasicBlock { label, instrs });
                    assert(block_views(done@) =~= closed.push(current));
                }
                label = Some(l);
                instrs = Vec::new();
                begun = true;
                open = true;
                assert(instr_views(instrs@) =~= Seq::empty());
            },
            Some(Code::Instr(instr)) => {
                let ends: bool = instr.op.ends_block();
                if open {
                    instrs.push(instr);
                    assert(instr_views(instrs@) =~= current.instrs.push(instr@));
                    assert(before.blocks.update(
                        before.blocks.len() - 1,
                        BlockView { instrs: current.instrs.push(instr@), ..current },
                    ) =~= closed.push(BlockView { instrs: current.instrs.push(instr@), ..current }));
                } else {
                    if begun {
                        done.push(BasicBlock { label, instrs });
                        assert(block_views(done@) =~= closed.push(current));
                    }
                    label = None;
                    instrs = Vec::new();
                    instrs.push(instr);
                    begun = true;
                    assert(instr_views(instrs@) =~= seq![instr@]);
                }
                open = !ends;
            },
            None => {},
        }
        i += 1;
    }
    if begun {
        let ghost closed = block_views(done@);
        let ghost current = BlockView {
            label: label_view(label),
            instrs: instr_views(instrs@),
        };
        done.push(BasicBlock { label, instrs });
        assert(block_views(done@) =~= closed.push(current));
    }
    done
}

/// The items of the first blocks depend only on those blocks.
proof fn lemma_blocks_code_agree(one: Seq<BlockView>, two: Seq<BlockView>, n: int)
    requires
        0 <= n <= one.len(),
        n <= two.len(),
        forall|i: int| 0 <= i < n ==> one[i] == two[i],
    ensures
        blocks_code(one, n) == blocks_code(two, n),
    decreases n,
{
    if n > 0 {
        lemma_blocks_code_agree(one, two, n - 1);
    }
}

/// Whether no instruction of a block is a jump, branch or return.
pub open spec fn runs_on(block: BlockView) -> bool {
    forall|i: int| 0 <= i < block.instrs.len() ==> !(#[trigger] block.instrs[i]).op.is_terminator()
}

/// What holds of the blocks of every prefix of a function body: written out
/// in order they are the prefix, a jump, branch or return stands only at the
/// end of a block, and a block that is still open has none.
proof fn lemma_form_prefix(code: Seq<CodeView>, n: int)
    requires
        0 <= n <= code.len(),
    ensures
        blocks_code(form_prefix(code, n).blocks, form_prefix(code, n).blocks.len() as int)
            == code.take(n),
        forall|b: int|
            0 <= b < form_prefix(code, n).blocks.len() ==> ends_properly(
                #[trigger] form_prefix(code, n).blocks[b],
            ),
        form_prefix(code, n).open ==> form_prefix(code, n).blocks.len() > 0 && runs_on(
            form_prefix(code, n).blocks.last(),
        ),
    decreases n,
{
    if n == 0 {
        assert(code.take(0) =~= Seq::empty());
    } else {
        lemma_form_prefix(code, n - 1);
        let before = form_prefix(code, n - 1);
        let after = form_prefix(code, n);
        let k = before.blocks.len() as int;
        assert(code.take(n) =~= code.take(n - 1).push(code[n - 1]));
        match code[n - 1] {
            CodeView::Label(l) => {
                let fresh = BlockView { label: Some(l), instrs: Seq::empty() };
                assert(after.blocks == before.blocks.push(fresh));
                lemma_blocks_code_agree(after.blocks, before.blocks, k);
                assert(block_code(fresh) =~= seq![CodeView::Label(l)]);
                assert(blocks_code(after.blocks, k + 1) =~= code.take(n));
                assert forall|b: int| 0 <= b < after.blocks.len() implies ends_properly(
                    #[trigger] after.blocks[b],
                ) by {
                    if b < k {
                        assert(after.blocks[b] == before.blocks[b]);
                    }
                }
            },
            CodeView::Instr(i) => {
                if before.open && k > 0 {
                    let old = before.blocks.last();
                    let grown = BlockView { instrs: old.instrs.push(i), ..old };
                    assert(after.blocks == before.blocks.update(k - 1, grown));
                    lemma_blocks_code_agree(after.blocks, before.blocks, k - 1);
                    assert(block_code(grown) =~= block_code(old).push(CodeView::Instr(i)));
                    assert(blocks_code(after.blocks, k) =~= code.take(n));
                    assert forall|b: int| 0 <= b < after.blocks.len() implies ends_properly(
                        #[trigger] after.blocks[b],
                    ) by {
                        if b < k - 1 {
                            assert(after.blocks[b] == before.blocks[b]);
                        } else {
                            assert forall|j: int| 0 <= j < grown.instrs.len() - 1 implies !(
                            #[trigger] grown.instrs[j]).op.is_terminator() by {
                                assert(grown.instrs[j] == old.instrs[j]);
                            }
                        }
                    }
                    if after.open {
                        assert forall|j: int| 0 <= j < grown.instrs.len() implies !(
                        #[trigger] grown.instrs[j]).op.is_terminator() by {
                            if j < old.instrs.len() {
                                assert(grown.instrs[j] == old.instrs[j]);
                            }
                        }
                    }
                } else {
                    let fresh = BlockView { label: None, instrs: seq![i] };
                    assert(after.blocks == before.blocks.push(fresh));
                    lemma_blocks_code_agree(after.blocks, before.blocks, k);
                    assert(block_code(fresh) =~= seq![CodeView::Instr(i)]);
                    assert(blocks_code(after.blocks, k + 1) =~= code.take(n));
                    assert forall|b: int| 0 <= b < after.blocks.len() implies ends_properly(
                        #[trigger] after.blocks[b],
                    ) by {
                        if b < k {
                            assert(after.blocks[b] == before.blocks[b]);
                        }
                    }
                }
            },
        }
    }
}

/// Forming blocks loses nothing and adds nothing: the blocks of a function
/// body, written out in order, are the body. And in each of them a jump,
/// branch or return stands only at the end.
pub proof fn lemma_blocks_keep_the_code(code: Seq<CodeView>)
    ensures
        blocks_code(form_blocks_spec(code), form_blocks_spec(code).len() as int) == code,
        forall|b: int|
            0 <= b < form_blocks_spec(code).len() ==> ends_properly(
                #[trigger] form_blocks_spec(code)[b],
            ),
{
    lemma_form_prefix(code, code.len() as int);
    assert(code.take(code.len() as int) =~= code);
}

} // verus!
