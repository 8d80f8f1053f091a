use vstd::prelude::*;

use crate::server::openai::{ChatCompletionRequest, ErrorResponse};
use crate::server::serving::{admit_chat_request, chat_refusal, error_body};
use crate::text::join2;

verus! {

/// How a chat request is answered.
#[derive(Debug, Clone, Copy, PartialEq, Eq, Structural)]
pub enum ChatRoute {
    /// In one piece, by the model.
    Answer,
    /// In chunks, by the model.
    Stream,
    /// In one empty piece: no model is loaded.
    EmptyAnswer,
    /// In one empty chunk: no model is loaded.
    EmptyStream,
}

/// How a chat request that is taken on is answered.
pub open spec fn chosen_route(req: ChatCompletionRequest, loaded: bool) -> ChatRoute {
    if req.stream == Some(true) {
        if loaded {
            ChatRoute::Stream
        } else {
            ChatRoute::EmptyStream
        }
    } else if loaded {
        ChatRoute::Answer
    } else {
        ChatRoute::EmptyAnswer
    }
}

/// Whether a chat request is taken on, and how it is answered then.
pub fn route_chat(req: &ChatCompletionRequest, max_messages: usize, loaded: bool) -> (result:
    Result<ChatRoute, ServingFailure>)
    ensures
        match result {
            Ok(route) => chat_refusal(*req, max_messages) is None && route == chosen_route(
                *req,
                loaded,
            ),
            Err(failure) => failure matches ServingFailure::Refused(text) && chat_refusal(
                *req,
                max_messages,
            ) == Some(text@),
        },
{
    if let Err(text) = admit_chat_request(req, max_messages) {
        return Err(ServingFailure::Refused(text));
    }
    let stream = match req.stream {
        Some(stream) => stream,
        None => false,
    };
    Ok(
        if stream {
            if loaded {
                ChatRoute::Stream
            } else {
                ChatRoute::EmptyStream
            }
        } else if loaded {
            ChatRoute::Answer
        } else {
            ChatRoute::EmptyAnswer
        },
    )
}

/// Why a request came to nothing, with what the part that failed said.
#[derive(Debug, Clone, PartialEq, Eq)]
pub enum ServingFailure {
    /// The request is refused, for this reason.
    Refused(String),
    RenderChat(String),
    TokenizeChat(String),
    TokenizeCompletion(String),
    SamplingParams(String),
    SubmitStream(String),
    DecodeOutput(String),
    DecodeToolCall(String),
    /// Anything else. The caller is not told what.
    Internal,
}

/// The codes that gRPC answers with.
#[derive(Debug, Clone, Copy, PartialEq, Eq, Structural)]
pub enum GrpcCode {
    InvalidArgument,
    Internal,
}

/// An HTTP answer that reports a failure.
#[derive(Debug)]
pub struct HttpFailure {
    pub status: u16,
    pub body: ErrorResponse,
}

impl ServingFailure {
    /// The request is at fault, not the server.
    pub open spec fn by_request(self) -> bool {
        self is Refused || self is SamplingParams
    }

    /// What the caller is told.
    pub open spec fn text(self) -> Seq<char> {
        match self {
            ServingFailure::Refused(reason) => reason@,
            ServingFailure::RenderChat(error) => "failed to render chat template: "@ + error@,
            ServingFailure::TokenizeChat(error) => "failed to tokenize chat prompt: "@ + error@,
            ServingFailure::TokenizeCompletion(error) =>
                "failed to tokenize completion prompt: "@ + error@,
            ServingFailure::SamplingParams(error) => "invalid sampling params: "@ + error@,
            ServingFailure::SubmitStream(error) => "failed to submit stream request: "@ + error@,
            ServingFailure::DecodeOutput(error) => "failed to decode output tokens: "@ + error@,
            ServingFailure::DecodeToolCall(error) => "failed to decode tool call: "@ + error@,
            ServingFailure::Internal =>
                "An internal error occurred while processing your request."@,
        }
    }

    pub fn message(&self) -> (text: String)
        ensures
            text@ == self.text(),
    {
        match self {
            ServingFailure::Refused(reason) => reason.clone(),
            ServingFailure::RenderChat(error) => join2(
                "failed to render chat template: ",
                error.as_str(),
            ),
            ServingFailure::TokenizeChat(error) => join2(
                "failed to tokenize chat prompt: ",
                error.as_str(),
            ),
            ServingFailure::TokenizeCompletion(error) => join2(
                "failed to tokenize completion prompt: ",
                error.as_str(),
            ),
            ServingFailure::SamplingParams(error) => join2(
                "invalid sampling params: ",
                error.as_str(),
            ),
            ServingFailure::SubmitStream(error) => join2(
                "failed to submit stream request: ",
                error.as_str(),
            ),
            ServingFailure::DecodeOutput(error) => join2(
                "failed to decode output tokens: ",
                error.as_str(),
            ),
            ServingFailure::DecodeToolCall(error) => join2(
                "failed to decode tool call: ",
                error.as_str(),
            ),
            ServingFailure::Internal =>
                "An internal error occurred while processing your request.".to_owned(),
        }
    }

    /// The kind of error in the words of the protocol.
    pub open spec fn kind(self) -> Seq<char> {
        if self.by_request() {
            "invalid_request_error"@
        } else if self is Internal {
            "server_error"@
        } else {
            "internal_error"@
        }
    }

    /// How HTTP reports the failure: a bad request, or an error of the server.
    pub fn http_answer(&self) -> (answer: HttpFailure)
        ensures
            answer.status == if self.by_request() {
                400u16
            } else {
                500u16
            },
            answer.body.error.message@ == self.text(),
            answer.body.error.error_type@ == self.kind(),
            answer.body.error.code is None,
    {
        let message = self.message();
        let (status, kind): (u16, &str) = match self {
            ServingFailure::Refused(_) | ServingFailure::SamplingParams(_) => {
                (400, "invalid_request_error")
            },
            ServingFailure::Internal => (500, "server_error"),
            _ => (500, "internal_error"),
        };
        HttpFailure { status, body: error_body(message.as_str(), kind) }
    }

    /// How gRPC reports the failure. What goes wrong when a stream is submitted is not
    /// told in detail.
    pub fn grpc_answer(&self) -> (answer: (GrpcCode, String))
        ensures
            answer.0 == if self.by_request() {
                GrpcCode::InvalidArgument
            } else {
                GrpcCode::Internal
            },
            answer.1@ == if self is SubmitStream {
                ServingFailure::Internal.text()
            } else {
                self.text()
            },
    {
        match self {
            ServingFailure::Refused(_) | ServingFailure::SamplingParams(_) => {
                (GrpcCode::InvalidArgument, self.message())
            },
            ServingFailure::SubmitStream(_) => {
                (GrpcCode::Internal, ServingFailure::Internal.message())
            },
            _ => (GrpcCode::Internal, self.message()),
        }
    }
}

/// A request that was refused is told why, by either protocol, and that it is at fault.
pub proof fn lemma_refusals_are_told(
    req: ChatCompletionRequest,
    max_messages: usize,
    reason: String,
)
    requires
        chat_refusal(req, max_messages) == Some(reason@),
    ensures
        ServingFailure::Refused(reason).by_request(),
        Some(ServingFailure::Refused(reason).text()) == chat_refusal(req, max_messages),
        ServingFailure::Refused(reason).kind() == "invalid_request_error"@,
{
}

/// A request that asks for a stream gets one, and any other a single answer; both are empty
/// while no model is loaded.
pub proof fn lemma_route(req: ChatCompletionRequest, loaded: bool)
    ensures
        chosen_route(req, loaded) is Stream || chosen_route(req, loaded) is EmptyStream
            <==> req.stream == Some(true),
        chosen_route(req, loaded) is Stream || chosen_route(req, loaded) is Answer <==> loaded,
{
}

/// A failure is the client's over both protocols or over neither, and is so exactly where
/// the request was refused or its sampling parameters are invalid.
pub proof fn lemma_whose_failure(
    failure: ServingFailure,
    http: HttpFailure,
    grpc: (GrpcCode, String),
)
    requires
        call_ensures(ServingFailure::http_answer, (&failure,), http),
        call_ensures(ServingFailure::grpc_answer, (&failure,), grpc),
    ensures
        http.status == 400 <==> failure is Refused || failure is SamplingParams,
        http.status == 400 || http.status == 500,
        grpc.0 == GrpcCode::InvalidArgument <==> http.status == 400,
        grpc.0 == GrpcCode::Internal <==> http.status == 500,
        !(failure is SubmitStream) ==> grpc.1@ == http.body.error.message@,
{
}

} // verus!
