//! Templates: literal text and conditional blocks, and how they render.

use crate::error::{Error, ErrorView, SyntaxError};
use crate::expr::{lemma_eval_without_files, Expr, ExprView};
use crate::markup::{lemma_plain_template, marks, template_blocks};
use crate::parse::parse_template;
use crate::project::{Project, ProjectView};
use vstd::prelude::*;
use vstd::string::StringExecFns;

verus! {

/// A unit of a template: literal text, or a body that a guard controls.
#[derive(Debug, PartialEq, Eq)]
pub enum Block {
    Text(String),
    If { cond: Expr, body: Vec<Block> },
}

/// A `Block` as a mathematical value.
pub enum BlockView {
    Text(Seq<char>),
    If { cond: ExprView, body: Seq<BlockView> },
}

/// The blocks of `blocks`, each as a mathematical value.
pub open spec fn blocks_view(blocks: Seq<Block>) -> Seq<BlockView> {
    Seq::new(blocks.len(), |k: int| blocks[k]@)
}

impl Block {
    /// The block as a mathematical value.
    pub open spec fn model(self) -> BlockView
        decreases self,
    {
        match self {
            Block::Text(t) => BlockView::Text(t@),
            Block::If { cond, body } => BlockView::If {
                cond: cond@,
                body: Seq::new(
                    body.len() as nat,
                    |k: int|
                        if 0 <= k < body.len() {
                            body[k].model()
                        } else {
                            BlockView::Text(Seq::empty())
                        },
                ),
            },
        }
    }

    fn duplicate(&self) -> (r: Block)
        ensures
            r@ == self@,
        decreases self,
    {
        match self {
            Block::Text(t) => Block::Text(t.clone()),
            Block::If { cond, body } => {
                let mut copy: Vec<Block> = Vec::new();
                let mut k: usize = 0;
                while k < body.len()
                    invariant
                        k <= body.len(),
                        copy.len() == k,
                        forall|j: int| 0 <= j < k ==> copy[j]@ == body[j]@,
                        self matches Block::If { body: own, .. } && own == body,
                    decreases body.len() - k,
                {
                    copy.push(body[k].duplicate());
                    k += 1;
                }
                let r = Block::If { cond: cond.clone(), body: copy };
                assert(r@->body =~= self@->body);
                r
            },
        }
    }
}

impl View for Block {
    type V = BlockView;

    open spec fn view(&self) -> BlockView {
        self.model()
    }
}

impl Clone for Block {
    fn clone(&self) -> (r: Self)
        ensures
            r@ == self@,
    {
        self.duplicate()
    }
}

/// The view of a conditional block is made of the views of its parts.
pub proof fn lemma_if_view(cond: Expr, body: Vec<Block>)
    ensures
        (Block::If { cond, body })@ == (BlockView::If { cond: cond@, body: blocks_view(body@) }),
{
    assert((Block::If { cond, body })@->body =~= blocks_view(body@));
}

/// A parsed template: its blocks in source order.
#[derive(Debug, PartialEq, Eq)]
pub struct Template {
    pub blocks: Vec<Block>,
}

impl View for Template {
    type V = Seq<BlockView>;

    open spec fn view(&self) -> Seq<BlockView> {
        blocks_view(self.blocks@)
    }
}

impl Template {
    /// The template that `input` holds, or why it holds none.
    pub fn parse(input: &str) -> (r: Result<Template, Error>)
        ensures
            match r {
                Ok(t) => template_blocks(input@) == Ok::<Seq<BlockView>, SyntaxError>(t@),
                Err(e) => template_blocks(input@) is Err && e@ == template_blocks(
                    input@,
                )->Err_0.report(),
            },
    {
        parse_template(input)
    }

    /// Whether some guard of the template asks for the files of the
    /// project. Where none does, the template renders without them.
    pub fn reads_files(&self) -> (b: bool)
        ensures
            b == reads_files(self@),
    {
        blocks_read_files(&self.blocks)
    }

    /// The text that the template renders to on `project`, behind `prefix`
    /// where one is given.
    pub fn render(&self, project: &Project, prefix: Option<&str>) -> (r: Result<String, Error>)
        ensures
            match r {
                Ok(out) => Ok::<Seq<char>, ErrorView>(out@) == behind(
                    prefix_text(prefix),
                    rendered(self@, project@),
                ),
                Err(e) => rendered(self@, project@) == Err::<Seq<char>, ErrorView>(e@),
            },
    {
        let mut out = String::new();
        match prefix {
            Some(p) => {
                out.append(p);
                assert(out@ =~= p@);
            },
            None => {},
        }
        match render_blocks(&self.blocks, project, &mut out) {
            Ok(_) => Ok(out),
            Err(e) => Err(e),
        }
    }
}

impl Clone for Template {
    fn clone(&self) -> (r: Self)
        ensures
            r@ == self@,
    {
        let mut copy: Vec<Block> = Vec::new();
        let mut k: usize = 0;
        while k < self.blocks.len()
            invariant
                k <= self.blocks.len(),
                copy.len() == k,
                forall|j: int| 0 <= j < k ==> copy[j]@ == self.blocks[j]@,
            decreases self.blocks.len() - k,
        {
            copy.push(self.blocks[k].clone());
            k += 1;
        }
        let r = Template { blocks: copy };
        assert(r@ =~= self@);
        r
    }
}

/// Whether some guard among `blocks`, nested ones included, asks for the
/// files of the project.
pub open spec fn reads_files(blocks: Seq<BlockView>) -> bool
    decreases blocks,
{
    if blocks.len() == 0 {
        false
    } else {
        let first = match blocks[0] {
            BlockView::Text(_) => false,
            BlockView::If { cond, body } => cond.reads_files() || reads_files(body),
        };
        first || reads_files(blocks.drop_first())
    }
}

/// Whether some guard among `blocks`, nested ones included, asks for the
/// files of the project.
fn blocks_read_files(blocks: &Vec<Block>) -> (b: bool)
    ensures
        b == reads_files(blocks_view(blocks@)),
    decreases blocks,
{
    let ghost all = blocks_view(blocks@);
    let mut k: usize = 0;
    assert(all.subrange(0, all.len() as int) =~= all);
    while k < blocks.len()
        invariant
            k <= blocks.len(),
            all == blocks_view(blocks@),
            reads_files(all) == reads_files(all.subrange(k as int, all.len() as int)),
        decreases blocks.len() - k,
    {
        let ghost rest = all.subrange(k as int, all.len() as int);
        proof {
            assert(rest[0] == blocks@[k as int]@);
            assert(rest.drop_first() =~= all.subrange(k + 1, all.len() as int));
        }
        match &blocks[k] {
            Block::Text(_) => {},
            Block::If { cond, body } => {
                proof {
                    lemma_if_view(*cond, *body);
                }
                if cond.reads_files() || blocks_read_files(body) {
                    return true;
                }
            },
        }
        k += 1;
    }
    false
}

/// The text that `blocks` render to on the project `p`: literal text as it
/// stands, and the body of each conditional block whose guard holds. The
/// first guard that cannot be evaluated ends it with that guard's error.
pub open spec fn rendered(blocks: Seq<BlockView>, p: ProjectView) -> Result<Seq<char>, ErrorView>
    decreases blocks,
{
    if blocks.len() == 0 {
        Ok(Seq::empty())
    } else {
        let first = match blocks[0] {
            BlockView::Text(t) => Ok(t),
            BlockView::If { cond, body } => match cond.eval(p) {
                Ok(true) => rendered(body, p),
                Ok(false) => Ok(Seq::empty()),
                Err(e) => Err(e),
            },
        };
        match first {
            Ok(head) => match rendered(blocks.drop_first(), p) {
                Ok(tail) => Ok(head + tail),
                Err(e) => Err(e),
            },
            Err(e) => Err(e),
        }
    }
}

/// `r`, behind the text `before`.
pub open spec fn behind(before: Seq<char>, r: Result<Seq<char>, ErrorView>) -> Result<
    Seq<char>,
    ErrorView,
> {
    match r {
        Ok(text) => Ok(before + text),
        Err(e) => Err(e),
    }
}

/// The text of `prefix`, none where there is no prefix.
pub open spec fn prefix_text(prefix: Option<&str>) -> Seq<char> {
    match prefix {
        Some(p) => p@,
        None => Seq::empty(),
    }
}

/// What two renderings come to, one behind the other: the first error, or
/// both texts.
pub open spec fn joined(
    first: Result<Seq<char>, ErrorView>,
    second: Result<Seq<char>, ErrorView>,
) -> Result<Seq<char>, ErrorView> {
    match first {
        Ok(head) => behind(head, second),
        Err(e) => Err(e),
    }
}

/// Appends to `out` what `blocks` render to on `project`.
fn render_blocks(blocks: &Vec<Block>, project: &Project, out: &mut String) -> (r: Result<(), Error>)
    ensures
        match r {
            Ok(_) => Ok::<Seq<char>, ErrorView>(final(out)@) == behind(
                old(out)@,
                rendered(blocks_view(blocks@), project@),
            ),
            Err(e) => rendered(blocks_view(blocks@), project@) == Err::<Seq<char>, ErrorView>(e@),
        },
    decreases blocks,
{
    let ghost all = blocks_view(blocks@);
    let ghost start = out@;
    let mut k: usize = 0;
    assert(all.subrange(0, all.len() as int) =~= all);
    assert(start + Seq::<char>::empty() =~= start);
    while k < blocks.len()
        invariant
            k <= blocks.len(),
            all == blocks_view(blocks@),
            start == old(out)@,
            out@.len() >= start.len(),
            out@.subrange(0, start.len() as int) == start,
            rendered(all, project@) == behind(
                out@.subrange(start.len() as int, out@.len() as int),
                rendered(all.subrange(k as int, all.len() as int), project@),
            ),
        decreases blocks.len() - k,
    {
        let ghost rest = all.subrange(k as int, all.len() as int);
        let ghost done = out@.subrange(start.len() as int, out@.len() as int);
        let ghost before = out@;
        proof {
            assert(rest[0] == blocks@[k as int]@);
            assert(rest.drop_first() =~= all.subrange(k + 1, all.len() as int));
        }
        match &blocks[k] {
            Block::Text(t) => {
                out.append(t.as_str());
                proof {
                    assert(out@.subrange(0, start.len() as int) =~= start);
                    assert(out@.subrange(start.len() as int, out@.len() as int) =~= done + t@);
                    match rendered(rest.drop_first(), project@) {
                        Ok(tail) => {
                            assert(done + (t@ + tail) =~= (done + t@) + tail);
                        },
                        Err(e) => {},
                    }
                }
            },
            Block::If { cond, body } => {
                proof {
                    lemma_if_view(*cond, *body);
                }
                match cond.is_match(project) {
                    Ok(true) => {
                        match render_blocks(body, project, out) {
                            Ok(_) => {
                                proof {
                                    let inner = rendered(blocks_view(body@), project@)->Ok_0;
                                    assert(out@ == before + inner);
                                    assert(out@.subrange(0, start.len() as int) =~= start);
                                    assert(out@.subrange(start.len() as int, out@.len() as int)
                                        =~= done + inner);
                                    match rendered(rest.drop_first(), project@) {
                                        Ok(tail) => {
                                            assert(done + (inner + tail) =~= (done + inner) + tail);
                                        },
                                        Err(e) => {},
                                    }
                                }
                            },
                            Err(e) => {
                                return Err(e);
                            },
                        }
                    },
                    Ok(false) => {
                        proof {
                            match rendered(rest.drop_first(), project@) {
                                Ok(tail) => {
                                    assert(done + (Seq::<char>::empty() + tail) =~= done + tail);
                                },
                                Err(e) => {},
                            }
                        }
                    },
                    Err(e) => {
                        return Err(e);
                    },
                }
            },
        }
        k += 1;
    }
    proof {
        let done = out@.subrange(start.len() as int, out@.len() as int);
        assert(all.subrange(k as int, all.len() as int) =~= Seq::<BlockView>::empty());
        assert(done + Seq::<char>::empty() =~= done);
        assert(out@ =~= start + done);
    }
    Ok(())
}

/// All the literal text of `blocks` in the order of the template, that of
/// the conditional blocks included.
pub open spec fn literal_text(blocks: Seq<BlockView>) -> Seq<char>
    decreases blocks,
{
    if blocks.len() == 0 {
        Seq::empty()
    } else {
        let first = match blocks[0] {
            BlockView::Text(t) => t,
            BlockView::If { cond, body } => literal_text(body),
        };
        first + literal_text(blocks.drop_first())
    }
}

/// The literal text of one block is its own.
pub proof fn lemma_literal_text_one(block: BlockView)
    ensures
        literal_text(seq![block]) == match block {
            BlockView::Text(t) => t,
            BlockView::If { cond, body } => literal_text(body),
        },
{
    let one = seq![block];
    let own = match block {
        BlockView::Text(t) => t,
        BlockView::If { cond, body } => literal_text(body),
    };
    assert(one.drop_first() =~= Seq::<BlockView>::empty());
    assert(literal_text(one.drop_first()) =~= Seq::<char>::empty());
    assert(one[0] == block);
    assert(own + Seq::<char>::empty() =~= own);
}

/// The literal text of blocks that stand one behind the other is their
/// literal texts, one behind the other.
pub proof fn lemma_literal_text_add(a: Seq<BlockView>, b: Seq<BlockView>)
    ensures
        literal_text(a + b) == literal_text(a) + literal_text(b),
    decreases a.len(),
{
    if a.len() == 0 {
        assert(a + b =~= b);
        assert(Seq::<char>::empty() + literal_text(b) =~= literal_text(b));
    } else {
        lemma_literal_text_add(a.drop_first(), b);
        assert((a + b).drop_first() =~= a.drop_first() + b);
        assert((a + b)[0] == a[0]);
        let first = match a[0] {
            BlockView::Text(t) => t,
            BlockView::If { cond, body } => literal_text(body),
        };
        assert(first + (literal_text(a.drop_first()) + literal_text(b)) =~= (first + literal_text(
            a.drop_first(),
        )) + literal_text(b));
    }
}

/// The text of `blocks` where each of them is literal text, and `None`
/// where a conditional block is among them.
pub open spec fn plain_text(blocks: Seq<BlockView>) -> Option<Seq<char>>
    decreases blocks.len(),
{
    if blocks.len() == 0 {
        Some(Seq::empty())
    } else {
        match (blocks[0], plain_text(blocks.drop_first())) {
            (BlockView::Text(t), Some(rest)) => Some(t + rest),
            _ => None,
        }
    }
}

/// Literal text behind blocks of literal text adds to their text.
pub proof fn lemma_plain_text_push(blocks: Seq<BlockView>, t: Seq<char>)
    requires
        plain_text(blocks) is Some,
    ensures
        plain_text(blocks.push(BlockView::Text(t))) == Some(plain_text(blocks)->0 + t),
    decreases blocks.len(),
{
    let longer = blocks.push(BlockView::Text(t));
    if blocks.len() == 0 {
        assert(longer.drop_first() =~= Seq::<BlockView>::empty());
        assert(plain_text(longer.drop_first()) == Some(Seq::<char>::empty()));
        assert(longer[0] == BlockView::Text(t));
        assert(t + Seq::<char>::empty() =~= Seq::<char>::empty() + t);
    } else {
        lemma_plain_text_push(blocks.drop_first(), t);
        assert(longer.drop_first() =~= blocks.drop_first().push(BlockView::Text(t)));
        assert(longer[0] == blocks[0]);
        let head = blocks[0]->Text_0;
        let rest = plain_text(blocks.drop_first())->0;
        assert(plain_text(blocks) == Some(head + rest));
        assert(plain_text(longer) == Some(head + (rest + t)));
        assert(head + (rest + t) =~= (head + rest) + t);
    }
}

/// Blocks of literal text render to their text on every project.
pub proof fn lemma_plain_renders(blocks: Seq<BlockView>, p: ProjectView)
    requires
        plain_text(blocks) is Some,
    ensures
        rendered(blocks, p) == Ok::<Seq<char>, ErrorView>(plain_text(blocks)->0),
    decreases blocks.len(),
{
    if blocks.len() > 0 {
        lemma_plain_renders(blocks.drop_first(), p);
    }
}

/// Blocks that stand one behind the other render one behind the other.
pub proof fn lemma_rendered_add(a: Seq<BlockView>, b: Seq<BlockView>, p: ProjectView)
    ensures
        rendered(a + b, p) == joined(rendered(a, p), rendered(b, p)),
    decreases a.len(),
{
    if a.len() == 0 {
        assert(a + b =~= b);
        match rendered(b, p) {
            Ok(text) => {
                assert(Seq::<char>::empty() + text =~= text);
            },
            Err(e) => {},
        }
    } else {
        lemma_rendered_add(a.drop_first(), b, p);
        assert((a + b).drop_first() =~= a.drop_first() + b);
        assert((a + b)[0] == a[0]);
        let first = match a[0] {
            BlockView::Text(t) => Ok(t),
            BlockView::If { cond, body } => match cond.eval(p) {
                Ok(true) => rendered(body, p),
                Ok(false) => Ok(Seq::empty()),
                Err(e) => Err(e),
            },
        };
        match (first, rendered(a.drop_first(), p), rendered(b, p)) {
            (Ok(x), Ok(y), Ok(z)) => {
                assert(x + (y + z) =~= (x + y) + z);
            },
            _ => {},
        }
    }
}

/// A conditional block is rendered as a whole or not at all: its body
/// where its guard holds, nothing where it does not, and the guard's error
/// where it cannot be evaluated.
pub proof fn lemma_rendered_if(cond: ExprView, body: Seq<BlockView>, p: ProjectView)
    ensures
        rendered(seq![BlockView::If { cond, body }], p) == match cond.eval(p) {
            Ok(true) => rendered(body, p),
            Ok(false) => Ok(Seq::empty()),
            Err(e) => Err(e),
        },
{
    let one = seq![BlockView::If { cond, body }];
    assert(one.drop_first() =~= Seq::<BlockView>::empty());
    assert(rendered(one.drop_first(), p) == Ok::<Seq<char>, ErrorView>(Seq::empty()));
    match cond.eval(p) {
        Ok(true) => match rendered(body, p) {
            Ok(text) => {
                assert(text + Seq::<char>::empty() =~= text);
            },
            Err(e) => {},
        },
        Ok(false) => {
            assert(Seq::<char>::empty() + Seq::<char>::empty() =~= Seq::<char>::empty());
        },
        Err(e) => {},
    }
}

/// Blocks whose guards ask for no files render to the same on two projects
/// with one environment.
pub proof fn lemma_rendered_without_files(blocks: Seq<BlockView>, p: ProjectView, q: ProjectView)
    requires
        !reads_files(blocks),
        p.env == q.env,
    ensures
        rendered(blocks, p) == rendered(blocks, q),
    decreases blocks,
{
    if blocks.len() > 0 {
        match blocks[0] {
            BlockView::Text(_) => {},
            BlockView::If { cond, body } => {
                lemma_eval_without_files(cond, p, q);
                lemma_rendered_without_files(body, p, q);
            },
        }
        lemma_rendered_without_files(blocks.drop_first(), p, q);
    }
}

/// A template without `if` and `endif` tags renders, on every project, to
/// the prefix and then its own text, character for character.
pub proof fn lemma_plain_template_renders_verbatim(s: Seq<char>, p: ProjectView, prefix: Seq<char>)
    requires
        template_blocks(s) is Ok,
        marks(s, 0).0.len() == 0,
    ensures
        behind(prefix, rendered(template_blocks(s)->Ok_0, p)) == Ok::<Seq<char>, ErrorView>(
            prefix + s,
        ),
{
    lemma_plain_template(s);
    lemma_plain_renders(template_blocks(s)->Ok_0, p);
}

} // verus!
