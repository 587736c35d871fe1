//! The transform-stage interface and the pipeline that threads one page of
//! HTML through every registered stage in registration order.

pub mod code_block;
pub mod header_link;
pub mod hbs_processor;
pub mod playpen;

use vstd::prelude::*;

verus! {

/// Why a stage could not produce output; the page is abandoned, never
/// partially rewritten.
#[derive(Debug)]
pub struct StageFailure {
    pub message: String,
}

/// A single text-to-text transform over one page of HTML.
///
/// `transform_spec` is the stage's mathematical behaviour: `Some` output for
/// the given input, or `None` when the stage fails on that input. `execute`
/// must return exactly that outcome.
pub trait PostProcessor: Sized {
    /// What this stage turns `html` into, or `None` when it fails.
    spec fn transform_spec(&self, html: Seq<char>) -> Option<Seq<char>>;

    /// Run the stage on one page.
    fn execute(&self, html: &str) -> (r: Result<String, StageFailure>)
        ensures
            match r {
                Ok(out) => self.transform_spec(html@) == Some(out@),
                Err(_) => self.transform_spec(html@) is None,
            },
    ;
}

/// The result of threading `html` through `stages` front to back: each
/// stage's output feeds the next; the first failing stage aborts the run.
pub open spec fn run_model<S: PostProcessor>(stages: Seq<S>, html: Seq<char>) -> Option<Seq<char>>
    decreases stages.len(),
{
    if stages.len() == 0 {
        Some(html)
    } else {
        match stages[0].transform_spec(html) {
            Some(h) => run_model(stages.drop_first(), h),
            None => None,
        }
    }
}

/// An ordered, append-only list of transform stages.
pub struct Pipeline<S: PostProcessor> {
    stages: Vec<S>,
}

impl<S: PostProcessor> Pipeline<S> {
    /// The registered stages, in registration order.
    pub closed spec fn stages_view(&self) -> Seq<S> {
        self.stages@
    }

    /// An empty pipeline.
    pub fn new() -> (r: Self)
        ensures
            r.stages_view() == Seq::<S>::empty(),
    {
        let r = Pipeline { stages: Vec::new() };
        proof {
            assert(r.stages@ =~= Seq::<S>::empty());
        }
        r
    }

    /// Append one stage; it will run after every stage already registered.
    pub fn add_stage(&mut self, stage: S)
        ensures
            final(self).stages_view() == old(self).stages_view().push(stage),
    {
        self.stages.push(stage);
    }

    /// Thread one page through every stage in order.
    pub fn run(&self, html: &str) -> (r: Result<String, StageFailure>)
        ensures
            match r {
                Ok(out) => run_model(self.stages_view(), html@) == Some(out@),
                Err(_) => run_model(self.stages_view(), html@) is None,
            },
    {
        let mut cur: String = html.to_owned();
        let n = self.stages.len();
        let mut i: usize = 0;
        proof {
            assert(self.stages@.skip(0) =~= self.stages@);
        }
        while i < n
            invariant
                n == self.stages@.len(),
                i <= n,
                run_model(self.stages@, html@) == run_model(self.stages@.skip(i as int), cur@),
            decreases n - i,
        {
            let ghost rest = self.stages@.skip(i as int);
            proof {
                assert(rest[0] == self.stages@[i as int]);
                assert(rest.drop_first() =~= self.stages@.skip(i as int + 1));
            }
            match self.stages[i].execute(cur.as_str()) {
                Ok(next) => {
                    cur = next;
                },
                Err(e) => {
                    return Err(e);
                },
            }
            i += 1;
        }
        proof {
            assert(self.stages@.skip(n as int) =~= Seq::<S>::empty());
        }
        Ok(cur)
    }
}

/// LAW: a pipeline with no stages returns its input unchanged.
pub proof fn lemma_run_empty<S: PostProcessor>(html: Seq<char>)
    ensures
        run_model(Seq::<S>::empty(), html) == Some(html),
{
}

/// LAW: a pipeline of two stages is their composition: running `[a, b]` on
/// `h` yields what `b` makes of what `a` made of `h`.
pub proof fn lemma_run_two<S: PostProcessor>(a: S, b: S, h: Seq<char>, h1: Seq<char>, h2: Seq<char>)
    requires
        a.transform_spec(h) == Some(h1),
        b.transform_spec(h1) == Some(h2),
    ensures
        run_model(seq![a, b], h) == Some(h2),
{
    let s = seq![a, b];
    assert(s[0] == a);
    assert(s.drop_first() =~= seq![b]);
    assert(seq![b][0] == b);
    assert(seq![b].drop_first() =~= Seq::<S>::empty());
    assert(run_model(Seq::<S>::empty(), h2) == Some(h2));
    assert(run_model(seq![b], h1) == Some(h2));
    assert(run_model(s, h) == run_model(seq![b], h1));
}

} // verus!

verus! {

/// One of the built-in transform stages, so that a single pipeline can hold
/// them in any caller-chosen order.
pub enum Stage {
    HeaderLink(header_link::HeaderLinkProcessor),
    CodeBlock(code_block::CodeBlockProcessor),
    Playpen(playpen::PlaypenProcessor),
    Hbs(hbs_processor::HbsProcessor),
}

impl PostProcessor for Stage {
    /// The wrapped stage's behaviour.
    open spec fn transform_spec(&self, html: Seq<char>) -> Option<Seq<char>> {
        match self {
            Stage::HeaderLink(p) => p.transform_spec(html),
            Stage::CodeBlock(p) => p.transform_spec(html),
            Stage::Playpen(p) => p.transform_spec(html),
            Stage::Hbs(p) => p.transform_spec(html),
        }
    }

    fn execute(&self, html: &str) -> (r: Result<String, StageFailure>) {
        match self {
            Stage::HeaderLink(p) => p.execute(html),
            Stage::CodeBlock(p) => p.execute(html),
            Stage::Playpen(p) => p.execute(html),
            Stage::Hbs(p) => p.execute(html),
        }
    }
}

} // verus!
