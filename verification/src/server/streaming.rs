use vstd::prelude::*;

use crate::server::grpc::searches_for_calls;
use crate::server::openai::{
    ChatCompletionRequest, ChatCompletionTool, ChunkChoice, FinishReason, ToolChoice,
    ToolChoiceMode,
};
use crate::server::serving::{
    all_ids, content_choice, last_reason, lemma_collected_in_order, says_outcome, says_text,
    tool_choice_chunk, Collector, EngineOutput, TokenOutput,
};

verus! {

/// The tokens of each output that has some, in order.
pub open spec fn spoken(outputs: Seq<TokenOutput>) -> Seq<Seq<u32>>
    decreases outputs.len(),
{
    if outputs.len() == 0 {
        Seq::empty()
    } else if outputs.last().token_ids@.len() == 0 {
        spoken(outputs.drop_last())
    } else {
        spoken(outputs.drop_last()).push(outputs.last().token_ids@)
    }
}

/// What some lists of tokens hold.
pub open spec fn part_views(parts: Seq<Vec<u32>>) -> Seq<Seq<u32>> {
    Seq::new(parts.len(), |i: int| parts[i]@)
}

/// The lists of tokens that an output gives to decode.
pub fn parts_to_decode(output: &EngineOutput) -> (parts: Vec<Vec<u32>>)
    ensures
        part_views(parts@) == spoken(output.outputs@),
{
    let ghost outputs = output.outputs@;
    let mut parts: Vec<Vec<u32>> = Vec::new();
    let mut i: usize = 0;
    assert(outputs.take(0) =~= Seq::<TokenOutput>::empty());
    assert(part_views(parts@) =~= spoken(outputs.take(0)));
    while i < output.outputs.len()
        invariant
            i <= output.outputs@.len(),
            outputs == output.outputs@,
            part_views(parts@) == spoken(outputs.take(i as int)),
        decreases output.outputs@.len() - i,
    {
        let ids = &output.outputs[i].token_ids;
        assert(outputs.take(i as int + 1).drop_last() =~= outputs.take(i as int));
        if ids.len() > 0 {
            let ghost before = parts@;
            parts.push(ids.clone());
            assert(parts@.last()@ =~= ids@);
            assert(part_views(parts@) =~= part_views(before).push(ids@));
        }
        i = i + 1;
    }
    assert(outputs.take(i as int) =~= outputs);
    parts
}

/// Nothing is said twice or left out: the parts of an output in a row are its tokens.
pub proof fn lemma_spoken_whole(outputs: Seq<TokenOutput>)
    ensures
        spoken(outputs).flatten() == all_ids(outputs),
    decreases outputs.len(),
{
    if outputs.len() > 0 {
        let front = outputs.drop_last();
        let ids = outputs.last().token_ids@;
        lemma_spoken_whole(front);
        if ids.len() == 0 {
            assert(all_ids(outputs) =~= all_ids(front));
        } else {
            spoken(front).lemma_flatten_push(ids);
        }
    }
}

/// What is to be done for an output of a streamed chat.
#[derive(Debug, Clone, PartialEq, Eq)]
pub enum StreamAction {
    /// Nothing yet.
    Wait,
    /// Decode these and send their texts in a row.
    DecodeParts(Vec<Vec<u32>>),
    /// Decode all tokens that were held back, and send what they come to.
    DecodeHeld(Vec<u32>),
}

/// A streamed chat. Where the output is searched for calls, the tokens are held back
/// until it is complete.
#[derive(Debug)]
pub struct ChatStream {
    pub searches: bool,
    pub held: Collector,
}

impl ChatStream {
    pub fn new(req: &ChatCompletionRequest) -> (stream: Self)
        ensures
            stream.searches == (req.tools is Some && req.tool_choice != Some(
                ToolChoice::Mode(ToolChoiceMode::Disabled),
            )),
            stream.held.token_ids@ == Seq::<u32>::empty(),
            stream.held.reason is None,
    {
        ChatStream { searches: searches_for_calls(req), held: Collector::new() }
    }

    /// Take an output in.
    pub fn accept(&mut self, output: &EngineOutput) -> (action: StreamAction)
        ensures
            final(self).searches == old(self).searches,
            final(self).held.token_ids@ == if old(self).searches {
                old(self).held.token_ids@ + all_ids(output.outputs@)
            } else {
                old(self).held.token_ids@
            },
            final(self).held.reason == if old(self).searches {
                last_reason(output.outputs@, old(self).held.reason)
            } else {
                old(self).held.reason
            },
            match action {
                StreamAction::Wait => old(self).searches && !output.finished,
                StreamAction::DecodeParts(parts) => !old(self).searches && part_views(parts@)
                    == spoken(output.outputs@),
                StreamAction::DecodeHeld(tokens) => old(self).searches && output.finished
                    && tokens@ == final(self).held.token_ids@,
            },
    {
        if !self.searches {
            return StreamAction::DecodeParts(parts_to_decode(output));
        }
        if self.held.accept(output) {
            let tokens = self.held.token_ids.clone();
            assert(tokens@ =~= self.held.token_ids@);
            StreamAction::DecodeHeld(tokens)
        } else {
            StreamAction::Wait
        }
    }

    /// What is sent for the text that an action gave, if anything is.
    pub fn choice(
        &self,
        text: String,
        tools: &[ChatCompletionTool],
        reason: Option<FinishReason>,
    ) -> (choice: Option<ChunkChoice>)
        ensures
            if self.searches {
                choice is Some && says_outcome(choice->0, text@, tools@, reason)
            } else {
                says_text(choice, text@, reason)
            },
    {
        if self.searches {
            Some(tool_choice_chunk(text.as_str(), tools, reason))
        } else {
            content_choice(text, reason)
        }
    }
}

/// The completions of several outputs in a row.
pub open spec fn in_a_row(steps: Seq<EngineOutput>) -> Seq<TokenOutput>
    decreases steps.len(),
{
    if steps.len() == 0 {
        Seq::empty()
    } else {
        in_a_row(steps.drop_last()) + steps.last().outputs@
    }
}

/// The tokens that are held back after several outputs, where they are.
pub open spec fn held_after(steps: Seq<EngineOutput>) -> Seq<u32>
    decreases steps.len(),
{
    if steps.len() == 0 {
        Seq::empty()
    } else {
        held_after(steps.drop_last()) + all_ids(steps.last().outputs@)
    }
}

/// A stream that is searched for calls is answered from all of its tokens, as an answer in
/// one piece is.
pub proof fn lemma_held_whole(steps: Seq<EngineOutput>)
    ensures
        held_after(steps) == all_ids(in_a_row(steps)),
    decreases steps.len(),
{
    if steps.len() > 0 {
        lemma_held_whole(steps.drop_last());
        lemma_collected_in_order(in_a_row(steps.drop_last()), steps.last().outputs@);
    }
}

} // verus!
