use tauri_runtime_cef::ipc::{
    channel_definitions, combine, execute, install_ipc_post_message, on_process_message_received,
    receive, request_target, DetachedWebview, IpcArguments, IpcClient, IpcReception, IpcRequest,
    ProcessId, ProcessMessage, PropertyHolder, V8Argument, V8Execution,
};

fn text(text: &str) -> Option<V8Argument> {
    Some(V8Argument::Text(text.to_string()))
}

fn post(arguments: Option<Vec<Option<V8Argument>>>, url: Option<&str>) -> V8Execution {
    execute(Some("postMessage".to_string()), arguments, url.map(str::to_string))
}

fn message(name: &str, url: &str, body: &str) -> Option<ProcessMessage> {
    Some(ProcessMessage {
        name: name.to_string(),
        arguments: Some(IpcArguments { url: url.to_string(), body: body.to_string() }),
    })
}

fn webview() -> DetachedWebview<u32, u32, ()> {
    DetachedWebview { label: "main".to_string(), window_id: 3, webview_id: 4, context: () }
}

fn received(
    source_process: ProcessId,
    message: Option<ProcessMessage>,
    has_handler: bool,
    frame_url: Option<&str>,
) -> IpcReception<u32, u32, ()> {
    let client = IpcClient { webview: webview(), has_handler };
    on_process_message_received(client, source_process, message, frame_url.map(str::to_string))
}

#[test]
fn a_posted_string_is_sent_with_the_address_of_the_frame() {
    let execution = post(Some(vec![text("hello")]), Some("tauri://localhost/"));
    assert_eq!(execution.handled, 1);
    assert!(execution.exception.is_none());
    assert!(execution.returns_undefined);
    let message = execution.message.unwrap();
    assert_eq!(message.name, "tauri:ipc");
    let arguments = message.arguments.unwrap();
    assert_eq!(arguments.url, "tauri://localhost/");
    assert_eq!(arguments.body, "hello");
}

#[test]
fn a_call_of_another_function_is_not_handled() {
    let url = Some("tauri://localhost/".to_string());
    let other = execute(Some("post".to_string()), Some(vec![text("hello")]), url.clone());
    let unnamed = execute(None, Some(vec![text("hello")]), url);
    for execution in [other, unnamed] {
        assert_eq!(execution.handled, 0);
        assert!(execution.exception.is_none());
        assert!(execution.message.is_none());
        assert!(!execution.returns_undefined);
    }
}

#[test]
fn anything_but_one_string_raises_an_exception() {
    let wrong = vec![
        None,
        Some(vec![]),
        Some(vec![None]),
        Some(vec![Some(V8Argument::Other)]),
        Some(vec![text("one"), text("two")]),
    ];
    for arguments in wrong {
        let execution = post(arguments, Some("tauri://localhost/"));
        assert_eq!(execution.handled, 1);
        assert_eq!(
            execution.exception.as_deref(),
            Some("window.ipc.postMessage expects a string argument")
        );
        assert!(execution.message.is_none());
        assert!(!execution.returns_undefined);
    }
}

#[test]
fn a_call_without_a_frame_does_nothing() {
    let execution = post(Some(vec![text("hello")]), None);
    assert_eq!(execution.handled, 1);
    assert!(execution.exception.is_none());
    assert!(execution.message.is_none());
    assert!(!execution.returns_undefined);
}

#[test]
fn a_posted_string_reaches_the_handler() {
    let execution = post(Some(vec![text("{\"cmd\":1}")]), Some("http://example.com/app?q=1#top"));
    let reception =
        received(ProcessId::Renderer, execution.message, true, None);
    assert_eq!(reception.handled, 1);
    let call = reception.call.unwrap();
    assert_eq!(call.webview.label, "main");
    assert_eq!(call.webview.window_id, 3);
    assert_eq!(call.webview.webview_id, 4);
    let request = call.request;
    assert_eq!(request.address, "http://example.com/app?q=1#top");
    // A URI of the `http` crate has no fragment.
    assert_eq!(request.uri, "http://example.com/app?q=1");
    assert_eq!(request.body, "{\"cmd\":1}");
}

#[test]
fn other_messages_are_not_handled() {
    let from_browser = received(
        ProcessId::Browser,
        message("tauri:ipc", "http://a/", "x"),
        true,
        None,
    );
    let missing = received(ProcessId::Renderer, None, true, None);
    let misnamed = received(
        ProcessId::Renderer,
        message("tauri:other", "http://a/", "x"),
        true,
        None,
    );
    for reception in [from_browser, missing, misnamed] {
        assert_eq!(reception.handled, 0);
        assert!(reception.call.is_none());
    }
}

#[test]
fn messages_that_cannot_be_delivered_are_dropped() {
    let unheard = received(
        ProcessId::Renderer,
        message("tauri:ipc", "http://a/", "x"),
        false,
        None,
    );
    let bare = ProcessMessage { name: "tauri:ipc".to_string(), arguments: None };
    let empty = received(ProcessId::Renderer, Some(bare), true, None);
    let invalid = received(
        ProcessId::Renderer,
        message("tauri:ipc", "http://a b/", "x"),
        true,
        None,
    );
    let nowhere = received(
        ProcessId::Renderer,
        message("tauri:ipc", "", "x"),
        true,
        None,
    );
    for reception in [unheard, empty, invalid, nowhere] {
        assert_eq!(reception.handled, 1);
        assert!(reception.call.is_none());
    }
}

#[test]
fn an_empty_address_is_replaced_by_that_of_the_frame() {
    let reception = received(
        ProcessId::Renderer,
        message("tauri:ipc", "", "x"),
        true,
        Some("http://frame"),
    );
    assert_eq!(reception.call.unwrap().request.uri, "http://frame/");
    let frame = Some("http://frame".to_string());
    assert_eq!(request_target("http://own".to_string(), frame), "http://own");
    assert_eq!(request_target(String::new(), None), "");
}

#[test]
fn a_request_that_was_not_built_is_dropped() {
    let error = http::Request::builder().uri("").body(()).unwrap_err();
    let dropped = receive(webview(), Err(error));
    assert_eq!(dropped.handled, 1);
    assert!(dropped.call.is_none());
    let request = IpcRequest {
        address: "/".to_string(),
        uri: "/".to_string(),
        body: "x".to_string(),
    };
    let kept = receive(webview(), Ok(request));
    assert_eq!(kept.handled, 1);
    let call = kept.call.unwrap();
    assert_eq!(call.request.body, "x");
    assert_eq!(call.webview.label, "main");
}

#[test]
fn the_channel_is_constant_for_the_page() {
    let definitions = install_ipc_post_message();
    assert_eq!(definitions.len(), 2);
    assert!(matches!(definitions[0].holder, PropertyHolder::Ipc));
    assert_eq!(definitions[0].key, "postMessage");
    assert!(matches!(definitions[1].holder, PropertyHolder::Window));
    assert_eq!(definitions[1].key, "ipc");
    for definition in definitions {
        assert_eq!(definition.attributes, 7);
    }
    assert_eq!(combine(&[]), 0);
    assert_eq!(combine(&[1, 4, 4]), 5);
}

#[test]
fn nothing_is_defined_where_something_is_missing() {
    assert_eq!(channel_definitions(true, true, true).len(), 2);
    assert_eq!(channel_definitions(true, true, true)[0].key, "postMessage");
    assert!(channel_definitions(false, true, true).is_empty());
    assert!(channel_definitions(true, false, true).is_empty());
    assert!(channel_definitions(true, true, false).is_empty());
}
