//! The message channel between a page and its host.
//!
//! A page posts a string with `window.ipc.postMessage`. The render process sends it
//! on, together with the address of the frame, as a process message; the browser
//! process turns that into a request for the webview's handler.

use vstd::prelude::*;

verus! {

/// The name of the process message that carries a posted string.
pub const IPC_MESSAGE_NAME: &'static str = "tauri:ipc";

/// The name of the function that posts a string.
pub const IPC_POST_MESSAGE_FUNCTION: &'static str = "postMessage";

/// The name of the object on `window` that holds the function.
pub const IPC_OBJECT: &'static str = "ipc";

/// What the caller of the function is told when the argument is not one string.
pub const IPC_ARGUMENT_ERROR: &'static str = "window.ipc.postMessage expects a string argument";

/// Whether `text` reads `expected`.
fn reads(text: &String, expected: &str) -> (r: bool)
    ensures
        r == (text@ == expected@),
{
    let expected = expected.to_owned();
    *text == expected
}

/// Names an error of the `http` crate, of which nothing is known here.
#[verifier::external_type_specification]
#[verifier::external_body]
pub struct ExHttpError(http::Error);

/// The request that the handler of a webview gets.
#[derive(Debug)]
pub struct IpcRequest {
    /// The address that the request was made for, as it was given.
    pub address: String,
    /// The URI that it was read as.
    pub uri: String,
    pub body: String,
}

/// The text of the URI that the `http` crate reads `text` as, if it takes it for one.
pub uninterp spec fn parsed_uri(text: Seq<char>) -> Option<Seq<char>>;

/// Builds a request with `http::Request::builder()`, the builder's `uri` and `body`,
/// and hands out its URI as text and its body, beside the address that it was built for.
///
/// Taken on trust: the builder fails exactly where `address` is not a URI, which the empty
/// text never is; else the request has that URI and the body that was given, as it is.
/// Which texts are URIs, and how a URI is written, is left to the crate.
#[verifier::external_body]
fn build_request(address: String, body: String) -> (built: Result<IpcRequest, http::Error>)
    ensures
        match built {
            Ok(request) => {
                &&& request.address@ == address@
                &&& parsed_uri(address@) == Some(request.uri@)
                &&& request.body@ == body@
            },
            Err(_) => parsed_uri(address@) is None,
        },
        address@.len() == 0 ==> built is Err,
{
    let request = http::Request::builder().uri(address.clone()).body(body)?;
    Ok(IpcRequest { address, uri: request.uri().to_string(), body: request.into_body() })
}

/// The property attributes `V8_PROPERTY_ATTRIBUTE_READONLY`,
/// `V8_PROPERTY_ATTRIBUTE_DONTENUM` and `V8_PROPERTY_ATTRIBUTE_DONTDELETE` of
/// `cef::sys::cef_v8_propertyattribute_t`.
///
/// Taken on trust: they are the first three bits, in this order.
#[verifier::external_body]
fn constant_property_flags() -> (flags: [u32; 3])
    ensures
        flags@ == seq![1u32, 2u32, 4u32],
{
    [
        cef::sys::cef_v8_propertyattribute_t::V8_PROPERTY_ATTRIBUTE_READONLY.0 as u32,
        cef::sys::cef_v8_propertyattribute_t::V8_PROPERTY_ATTRIBUTE_DONTENUM.0 as u32,
        cef::sys::cef_v8_propertyattribute_t::V8_PROPERTY_ATTRIBUTE_DONTDELETE.0 as u32,
    ]
}

/// All of `flags` in one.
pub open spec fn combined(flags: Seq<u32>) -> u32
    decreases flags.len(),
{
    if flags.len() == 0 {
        0
    } else {
        combined(flags.drop_last()) | flags.last()
    }
}

/// Combines `flags` into one set of bits.
pub fn combine(flags: &[u32]) -> (bits: u32)
    ensures
        bits == combined(flags@),
{
    let mut bits: u32 = 0;
    let mut index: usize = 0;
    while index < flags.len()
        invariant
            index <= flags@.len(),
            bits == combined(flags@.take(index as int)),
        decreases flags@.len() - index,
    {
        assert(flags@.take(index + 1).drop_last() =~= flags@.take(index as int));
        bits = bits | flags[index];
        index += 1;
    }
    assert(flags@.take(index as int) =~= flags@);
    bits
}

/// What a property of the message channel is defined on.
#[derive(Clone, Copy, Debug)]
pub enum PropertyHolder {
    /// The new object that holds the function.
    Ipc,
    /// The global object of the context.
    Window,
}

/// A property to define.
#[derive(Debug)]
pub struct PropertyDefinition {
    pub holder: PropertyHolder,
    pub key: String,
    pub attributes: u32,
}

/// Whether `definitions` are the function on the new object and then that object on
/// `window`, each of them read-only, not enumerable and not deletable.
pub open spec fn is_channel(definitions: Seq<PropertyDefinition>) -> bool {
    &&& definitions.len() == 2
    &&& definitions[0].holder is Ipc
    &&& definitions[0].key@ == IPC_POST_MESSAGE_FUNCTION@
    &&& definitions[0].attributes == 7
    &&& definitions[1].holder is Window
    &&& definitions[1].key@ == IPC_OBJECT@
    &&& definitions[1].attributes == 7
}

/// The properties that make up the message channel, in the order in which they are
/// defined: the function on the new object, then that object on `window`. A page can
/// neither write nor delete nor enumerate them.
pub fn install_ipc_post_message() -> (definitions: Vec<PropertyDefinition>)
    ensures
        is_channel(definitions@),
{
    let flags = constant_property_flags();
    let attributes = combine(flags.as_slice());
    proof {
        let all = seq![1u32, 2u32, 4u32];
        assert(all.drop_last() =~= seq![1u32, 2u32]);
        assert(seq![1u32, 2u32].drop_last() =~= seq![1u32]);
        assert(seq![1u32].drop_last() =~= Seq::<u32>::empty());
        reveal_with_fuel(combined, 4);
        assert(((0u32 | 1u32) | 2u32) | 4u32 == 7u32) by (bit_vector);
    }
    let mut definitions: Vec<PropertyDefinition> = Vec::new();
    definitions.push(
        PropertyDefinition {
            holder: PropertyHolder::Ipc,
            key: IPC_POST_MESSAGE_FUNCTION.to_owned(),
            attributes,
        },
    );
    definitions.push(
        PropertyDefinition {
            holder: PropertyHolder::Window,
            key: IPC_OBJECT.to_owned(),
            attributes,
        },
    );
    definitions
}

/// The properties to define in a context, given what CEF could provide: the global object,
/// a new object and a new function. If one of them is missing, nothing is defined.
pub fn channel_definitions(has_global: bool, has_object: bool, has_function: bool) -> (definitions:
    Vec<PropertyDefinition>)
    ensures
        !(has_global && has_object && has_function) ==> definitions@.len() == 0,
        has_global && has_object && has_function ==> is_channel(definitions@),
{
    if has_global && has_object && has_function {
        install_ipc_post_message()
    } else {
        Vec::new()
    }
}

/// An argument of a call from a page.
#[derive(Debug)]
pub enum V8Argument {
    /// A string.
    Text(String),
    /// A value of any other type.
    Other,
}

/// What the process message of a posted string carries.
#[derive(Debug)]
pub struct IpcArguments {
    /// The address of the frame that posted it.
    pub url: String,
    /// The string.
    pub body: String,
}

/// A message from one process to another.
#[derive(Debug)]
pub struct ProcessMessage {
    pub name: String,
    /// `None` where CEF gives no argument list.
    pub arguments: Option<IpcArguments>,
}

/// The outcome of a call from a page.
#[derive(Debug)]
pub struct V8Execution {
    /// What CEF is answered: one if the call was handled, else zero.
    pub handled: i32,
    /// The exception to raise in the page.
    pub exception: Option<String>,
    /// The message to send to the browser process.
    pub message: Option<ProcessMessage>,
    /// Whether the call returns `undefined`.
    pub returns_undefined: bool,
}

/// The string that a call posts: its only argument, if that is a string.
pub open spec fn posted(arguments: Option<Seq<Option<V8Argument>>>) -> Option<Seq<char>> {
    match arguments {
        Some(list) if list.len() == 1 => match list[0] {
            Some(V8Argument::Text(text)) => Some(text@),
            _ => None,
        },
        _ => None,
    }
}

/// Whether `execution` is the outcome of a call of the function `name` with
/// `arguments` in a frame at `frame_url`.
///
/// A call of another function is not handled. One without exactly one string raises
/// an exception. One from a context without a frame does nothing. Any other sends the
/// string with the frame's address.
pub open spec fn is_execution(
    name: Option<Seq<char>>,
    arguments: Option<Seq<Option<V8Argument>>>,
    frame_url: Option<Seq<char>>,
    execution: V8Execution,
) -> bool {
    if name != Some(IPC_POST_MESSAGE_FUNCTION@) {
        &&& execution.handled == 0
        &&& execution.exception is None
        &&& execution.message is None
        &&& !execution.returns_undefined
    } else if posted(arguments) is None {
        &&& execution.handled == 1
        &&& execution.exception is Some
        &&& execution.exception->0@ == IPC_ARGUMENT_ERROR@
        &&& execution.message is None
        &&& !execution.returns_undefined
    } else if frame_url is None {
        &&& execution.handled == 1
        &&& execution.exception is None
        &&& execution.message is None
        &&& !execution.returns_undefined
    } else {
        &&& execution.handled == 1
        &&& execution.exception is None
        &&& execution.message is Some
        &&& execution.message->0.name@ == IPC_MESSAGE_NAME@
        &&& execution.message->0.arguments is Some
        &&& execution.message->0.arguments->0.url@ == frame_url->0
        &&& execution.message->0.arguments->0.body@ == posted(arguments)->0
        &&& execution.returns_undefined
    }
}

/// The view of an optional text.
pub open spec fn text_of(text: Option<String>) -> Option<Seq<char>> {
    match text {
        Some(text) => Some(text@),
        None => None,
    }
}

/// The view of an optional list of arguments.
pub open spec fn list_of(arguments: Option<Vec<Option<V8Argument>>>) -> Option<
    Seq<Option<V8Argument>>,
> {
    match arguments {
        Some(list) => Some(list@),
        None => None,
    }
}

/// Handles a call from a page. `frame_url` is the address of the frame of the current
/// context, `None` where there is no context or no frame.
pub fn execute(
    name: Option<String>,
    arguments: Option<Vec<Option<V8Argument>>>,
    frame_url: Option<String>,
) -> (execution: V8Execution)
    ensures
        is_execution(text_of(name), list_of(arguments), text_of(frame_url), execution),
{
    let called = match &name {
        Some(name) => reads(name, IPC_POST_MESSAGE_FUNCTION),
        None => false,
    };
    if !called {
        return V8Execution {
            handled: 0,
            exception: None,
            message: None,
            returns_undefined: false,
        };
    }
    let mut body: Option<String> = None;
    if let Some(list) = &arguments {
        if list.len() == 1 {
            if let Some(V8Argument::Text(text)) = &list[0] {
                body = Some(text.clone());
            }
        }
    }
    match body {
        None => V8Execution {
            handled: 1,
            exception: Some(IPC_ARGUMENT_ERROR.to_owned()),
            message: None,
            returns_undefined: false,
        },
        Some(body) => match frame_url {
            None => V8Execution {
                handled: 1,
                exception: None,
                message: None,
                returns_undefined: false,
            },
            Some(url) => V8Execution {
                handled: 1,
                exception: None,
                message: Some(
                    ProcessMessage {
                        name: IPC_MESSAGE_NAME.to_owned(),
                        arguments: Some(IpcArguments { url, body }),
                    },
                ),
                returns_undefined: true,
            },
        },
    }
}

/// The process that a message comes from.
#[derive(Clone, Copy, Debug)]
pub enum ProcessId {
    Browser,
    Renderer,
}

/// The webview that a message is for: what its dispatcher finds it by.
#[derive(Debug)]
pub struct DetachedWebview<W, V, C> {
    pub label: String,
    pub window_id: W,
    pub webview_id: V,
    pub context: C,
}

/// The client of a browser: its webview, and whether that has a handler for posted
/// strings.
#[derive(Debug)]
pub struct IpcClient<W, V, C> {
    pub webview: DetachedWebview<W, V, C>,
    pub has_handler: bool,
}

/// A call of the handler.
#[derive(Debug)]
pub struct IpcCall<W, V, C> {
    pub webview: DetachedWebview<W, V, C>,
    pub request: IpcRequest,
}

/// The outcome of a process message.
#[derive(Debug)]
pub struct IpcReception<W, V, C> {
    /// What CEF is answered: one if the message was handled, else zero.
    pub handled: i32,
    /// The call of the handler to make, if any.
    pub call: Option<IpcCall<W, V, C>>,
}

/// Whether a message is one that carries a posted string: it comes from a render
/// process and bears the name of such messages.
pub open spec fn is_ipc_message(source_process: ProcessId, message: Option<ProcessMessage>) -> bool {
    source_process is Renderer && message is Some && message->0.name@ == IPC_MESSAGE_NAME@
}

/// The address that a request is made for: the one that came with the message or, if
/// that is empty, the one of the frame, if there is a frame.
pub open spec fn target(url: Seq<char>, frame_url: Option<Seq<char>>) -> Seq<char> {
    if url.len() == 0 && frame_url is Some {
        frame_url->0
    } else {
        url
    }
}

/// Whether `call` hands `webview` and a request for `address` with `body` to the handler,
/// or there is none because `address` is not a URI.
pub open spec fn is_call<W, V, C>(
    call: Option<IpcCall<W, V, C>>,
    webview: DetachedWebview<W, V, C>,
    address: Seq<char>,
    body: Seq<char>,
) -> bool {
    match call {
        Some(call) => {
            &&& call.webview == webview
            &&& call.request.address@ == address
            &&& parsed_uri(address) == Some(call.request.uri@)
            &&& call.request.body@ == body
        },
        None => parsed_uri(address) is None,
    }
}

/// Whether `reception` is the outcome of `message` for `client`. A message that carries no
/// posted string is not handled. Of one that does the handler, if there is one, is called
/// with the client's webview and a request for its address with the string as the body;
/// where there is no handler, no argument list or no valid address, the message is
/// dropped.
pub open spec fn is_reception<W, V, C>(
    client: IpcClient<W, V, C>,
    source_process: ProcessId,
    message: Option<ProcessMessage>,
    frame_url: Option<Seq<char>>,
    reception: IpcReception<W, V, C>,
) -> bool {
    if !is_ipc_message(source_process, message) {
        reception.handled == 0 && reception.call is None
    } else if !client.has_handler || message->0.arguments is None {
        reception.handled == 1 && reception.call is None
    } else {
        let arguments = message->0.arguments->0;
        &&& reception.handled == 1
        &&& is_call(
            reception.call,
            client.webview,
            target(arguments.url@, frame_url),
            arguments.body@,
        )
    }
}

/// The address that a request is made for.
pub fn request_target(url: String, frame_url: Option<String>) -> (r: String)
    ensures
        r@ == target(url@, text_of(frame_url)),
{
    if url.as_str().is_empty() {
        match frame_url {
            Some(frame_url) => frame_url,
            None => url,
        }
    } else {
        url
    }
}

/// What becomes of a request: it is handed to the handler with the webview; one that could
/// not be built is dropped, and the message counts as handled all the same.
pub fn receive<W, V, C>(
    webview: DetachedWebview<W, V, C>,
    built: Result<IpcRequest, http::Error>,
) -> (reception: IpcReception<W, V, C>)
    ensures
        reception.handled == 1,
        reception.call == match built {
            Ok(request) => Some(IpcCall { webview, request }),
            Err(_) => None,
        },
{
    match built {
        Ok(request) => IpcReception { handled: 1, call: Some(IpcCall { webview, request }) },
        Err(_) => IpcReception { handled: 1, call: None },
    }
}

/// Handles a message from another process to the browser of `client`. `frame_url` is the
/// address of the frame that CEF names for the message.
pub fn on_process_message_received<W, V, C>(
    client: IpcClient<W, V, C>,
    source_process: ProcessId,
    message: Option<ProcessMessage>,
    frame_url: Option<String>,
) -> (reception: IpcReception<W, V, C>)
    ensures
        is_reception(client, source_process, message, text_of(frame_url), reception),
        message is Some && message->0.arguments is Some && target(
            message->0.arguments->0.url@,
            text_of(frame_url),
        ).len() == 0 ==> reception.call is None,
{
    let from_renderer = match source_process {
        ProcessId::Renderer => true,
        ProcessId::Browser => false,
    };
    if !from_renderer {
        return IpcReception { handled: 0, call: None };
    }
    match message {
        None => IpcReception { handled: 0, call: None },
        Some(message) => {
            if !reads(&message.name, IPC_MESSAGE_NAME) {
                return IpcReception { handled: 0, call: None };
            }
            if !client.has_handler {
                return IpcReception { handled: 1, call: None };
            }
            match message.arguments {
                None => IpcReception { handled: 1, call: None },
                Some(arguments) => {
                    let address = request_target(arguments.url, frame_url);
                    receive(client.webview, build_request(address, arguments.body))
                },
            }
        },
    }
}

/// What a page posts reaches the handler: the message that its call sends, received for a
/// client with a handler, makes a call with the client's webview and a request with exactly
/// the posted string for the address of the frame that posted it.
pub proof fn law_posted_string_reaches_the_handler<W, V, C>(
    arguments: Option<Seq<Option<V8Argument>>>,
    url: Seq<char>,
    execution: V8Execution,
    client: IpcClient<W, V, C>,
    frame_url: Option<Seq<char>>,
    reception: IpcReception<W, V, C>,
)
    requires
        posted(arguments) is Some,
        is_execution(Some(IPC_POST_MESSAGE_FUNCTION@), arguments, Some(url), execution),
        client.has_handler,
        is_reception(client, ProcessId::Renderer, execution.message, frame_url, reception),
    ensures
        reception.handled == 1,
        is_call(
            reception.call,
            client.webview,
            target(url, frame_url),
            posted(arguments)->0,
        ),
        url.len() > 0 ==> is_call(
            reception.call,
            client.webview,
            url,
            posted(arguments)->0,
        ),
{
}

/// Nothing is sent but posted strings: a message goes out exactly for a call of the
/// function with one string from a frame, and never where an exception is raised.
pub proof fn law_only_posted_strings_are_sent(
    name: Option<Seq<char>>,
    arguments: Option<Seq<Option<V8Argument>>>,
    frame_url: Option<Seq<char>>,
    execution: V8Execution,
)
    requires
        is_execution(name, arguments, frame_url, execution),
    ensures
        execution.message is Some <==> name == Some(IPC_POST_MESSAGE_FUNCTION@) && posted(
            arguments,
        ) is Some && frame_url is Some,
        execution.message is Some ==> execution.exception is None,
{
}

/// The address of a request is the one that came with the message, unless that is empty
/// and there is a frame: then it is the frame's.
pub proof fn law_frame_stands_in_for_an_empty_address(url: Seq<char>, frame_url: Option<String>)
    ensures
        url.len() > 0 ==> target(url, text_of(frame_url)) == url,
        url.len() == 0 && frame_url is Some ==> target(url, text_of(frame_url))
            == frame_url->0@,
        url.len() == 0 && frame_url is None ==> target(url, text_of(frame_url)).len() == 0,
{
}

/// The handler is called for every message of the name `tauri:ipc` that comes from a render
/// process with an argument list, if there is a handler and the address can be read as a
/// URI, whatever URI that is; and for no other message. It gets the client's webview, and a
/// request for the address with the string as it was sent.
pub proof fn law_every_deliverable_message_is_delivered<W, V, C>(
    client: IpcClient<W, V, C>,
    source_process: ProcessId,
    message: Option<ProcessMessage>,
    frame_url: Option<String>,
    reception: IpcReception<W, V, C>,
)
    requires
        is_reception(client, source_process, message, text_of(frame_url), reception),
    ensures
        ({
            let is_ipc = source_process is Renderer && message is Some && message->0.name@
                == "tauri:ipc"@;
            let url = message->0.arguments->0.url@;
            let address = if url.len() == 0 && frame_url is Some {
                frame_url->0@
            } else {
                url
            };
            &&& is_ipc ==> reception.handled == 1
            &&& !is_ipc ==> reception.handled == 0
            &&& reception.call is Some <==> {
                &&& is_ipc
                &&& client.has_handler
                &&& message->0.arguments is Some
                &&& parsed_uri(address) is Some
            }
            &&& reception.call is Some ==> {
                &&& reception.call->0.webview.label == client.webview.label
                &&& reception.call->0.webview.window_id == client.webview.window_id
                &&& reception.call->0.webview.webview_id == client.webview.webview_id
                &&& reception.call->0.webview.context == client.webview.context
                &&& reception.call->0.request.address@ == address
                &&& parsed_uri(address) == Some(reception.call->0.request.uri@)
                &&& reception.call->0.request.body@ == message->0.arguments->0.body@
            }
        }),
{
}

/// A call of `postMessage` with one string from a frame sends that string and the frame's
/// address, and returns `undefined`; one with anything else raises the exception; one from
/// no frame does nothing; and a call of another function is not handled.
pub proof fn law_every_posted_string_is_sent(
    name: Option<String>,
    arguments: Option<Vec<Option<V8Argument>>>,
    frame_url: Option<String>,
    execution: V8Execution,
)
    requires
        is_execution(text_of(name), list_of(arguments), text_of(frame_url), execution),
    ensures
        ({
            let is_called = name is Some && name->0@ == "postMessage"@;
            let is_string = arguments is Some && arguments->0@.len() == 1
                && arguments->0@[0] is Some && arguments->0@[0]->0 is Text;
            &&& is_called ==> execution.handled == 1
            &&& !is_called ==> execution.handled == 0
            &&& execution.exception is Some <==> is_called && !is_string
            &&& execution.exception is Some ==> execution.exception->0@
                == "window.ipc.postMessage expects a string argument"@
            &&& execution.message is Some <==> is_called && is_string && frame_url is Some
            &&& execution.returns_undefined <==> is_called && is_string && frame_url is Some
            &&& execution.message is Some ==> {
                let message = execution.message->0;
                &&& message.name@ == "tauri:ipc"@
                &&& message.arguments is Some
                &&& message.arguments->0.url@ == frame_url->0@
                &&& message.arguments->0.body@ == arguments->0@[0]->0->Text_0@
            }
        }),
{
}

/// From the page to the handler: what is posted from a frame with an address is delivered
/// exactly if the address can be read as a URI, and then as it was posted, with the
/// client's webview.
pub proof fn law_delivery_is_faithful<W, V, C>(
    body: String,
    arguments: Vec<Option<V8Argument>>,
    url: String,
    execution: V8Execution,
    client: IpcClient<W, V, C>,
    frame_url: Option<String>,
    reception: IpcReception<W, V, C>,
)
    requires
        arguments@ == seq![Some(V8Argument::Text(body))],
        url@.len() > 0,
        is_execution(
            Some("postMessage"@),
            list_of(Some(arguments)),
            text_of(Some(url)),
            execution,
        ),
        client.has_handler,
        is_reception(
            client,
            ProcessId::Renderer,
            execution.message,
            text_of(frame_url),
            reception,
        ),
    ensures
        reception.handled == 1,
        reception.call is Some <==> parsed_uri(url@) is Some,
        reception.call is Some ==> {
            &&& reception.call->0.webview == client.webview
            &&& reception.call->0.request.address@ == url@
            &&& reception.call->0.request.body@ == body@
        },
{
}

/// The message channel is `postMessage` on a new object and that object as `ipc` on
/// `window`, in this order; both are read-only, not enumerable and not deletable, and have
/// no other attribute.
pub proof fn law_channel_is_constant(definitions: Seq<PropertyDefinition>)
    requires
        is_channel(definitions),
    ensures
        definitions.len() == 2,
        definitions[0].holder is Ipc,
        definitions[0].key@ == "postMessage"@,
        definitions[1].holder is Window,
        definitions[1].key@ == "ipc"@,
        forall|k: int|
            #![trigger definitions[k]]
            0 <= k < 2 ==> definitions[k].attributes == 1u32 | 2u32 | 4u32,
{
    assert(1u32 | 2u32 | 4u32 == 7u32) by (bit_vector);
}

/// Combined flags have every bit of each flag, and no bit that none of them has.
pub proof fn law_combined_flags_are_their_union(flags: Seq<u32>, mask: u32)
    ensures
        forall|i: int|
            #![trigger flags[i]]
            0 <= i < flags.len() ==> combined(flags) & flags[i] == flags[i],
        (forall|i: int| #![trigger flags[i]] 0 <= i < flags.len() ==> flags[i] & mask == 0)
            ==> combined(flags) & mask == 0,
    decreases flags.len(),
{
    if flags.len() == 0 {
        assert(0u32 & mask == 0) by (bit_vector);
    } else {
        let fewer = flags.drop_last();
        let rest = combined(fewer);
        let last = flags.last();
        law_combined_flags_are_their_union(fewer, mask);
        assert forall|i: int| #![trigger flags[i]] 0 <= i < flags.len() implies combined(flags)
            & flags[i] == flags[i] by {
            let flag = flags[i];
            if i < fewer.len() {
                assert(fewer[i] == flag);
                assert((rest | last) & flag == flag) by (bit_vector)
                    requires
                        rest & flag == flag,
                ;
            } else {
                assert((rest | flag) & flag == flag) by (bit_vector);
            }
        }
        if forall|i: int| #![trigger flags[i]] 0 <= i < flags.len() ==> flags[i] & mask == 0 {
            assert forall|i: int| #![trigger fewer[i]] 0 <= i < fewer.len() implies fewer[i] & mask
                == 0 by {
                assert(flags[i] == fewer[i]);
            }
            assert(flags[flags.len() - 1] == last);
            assert((rest | last) & mask == 0) by (bit_vector)
                requires
                    rest & mask == 0,
                    last & mask == 0,
            ;
        }
    }
}

} // verus!
