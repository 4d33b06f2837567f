//! What the callers on the way between a page and its host can rely on, from one call to
//! the next.

use crate::ipc::{
    DetachedWebview, IpcClient, IpcReception, IpcRequest, ProcessId, ProcessMessage,
    PropertyDefinition, V8Argument, V8Execution,
};
use crate::scripts::{
    BrowserInitializationScriptState, ContextSetup, ExtraInfo, TauriRenderProcessHandler,
};
use std::collections::HashMap;
use std::sync::Arc;
use vstd::prelude::*;

verus! {

/// Only a call of `postMessage` is handled. One with exactly one string from a frame sends
/// that string with the frame's address and returns `undefined`; one with anything else
/// raises the exception; one from no frame does nothing.
pub proof fn law_page_call_sends_its_string(
    name: Option<String>,
    arguments: Option<Vec<Option<V8Argument>>>,
    frame_url: Option<String>,
    execution: V8Execution,
)
    requires
        call_ensures(crate::ipc::execute, (name, arguments, frame_url), execution),
    ensures
        ({
            let is_called = name is Some && name->0@ == "postMessage"@;
            let is_string = arguments is Some && arguments->0@.len() == 1
                && arguments->0@[0] is Some && arguments->0@[0]->0 is Text;
            &&& execution.handled == if is_called {
                1i32
            } else {
                0i32
            }
            &&& execution.exception is Some <==> is_called && !is_string
            &&& execution.exception is Some ==> execution.exception->0@
                == "window.ipc.postMessage expects a string argument"@
            &&& execution.message is Some <==> is_called && is_string && frame_url is Some
            &&& execution.returns_undefined <==> is_called && is_string && frame_url is Some
            &&& execution.message is Some ==> {
                let message = execution.message->0;
                &&& message.name@ == "tauri:ipc"@
                &&& message.arguments is Some
                &&& message.arguments->0.url@ == frame_url->0@
                &&& message.arguments->0.body@ == arguments->0@[0]->0->Text_0@
            }
        }),
{
    crate::ipc::law_every_posted_string_is_sent(name, arguments, frame_url, execution);
}

/// The handler is called for a message exactly if it is a `tauri:ipc` message from a render
/// process with an argument list, there is a handler, and the address can be read as a URI;
/// it gets the client's webview, the address and the string as they are. Every such
/// message counts as handled, be it delivered or not, and no other does.
pub proof fn law_message_reaches_the_handler<W, V, C>(
    client: IpcClient<W, V, C>,
    source_process: ProcessId,
    message: Option<ProcessMessage>,
    frame_url: Option<String>,
    reception: IpcReception<W, V, C>,
)
    requires
        call_ensures(
            crate::ipc::on_process_message_received::<W, V, C>,
            (client, source_process, message, frame_url),
            reception,
        ),
    ensures
        ({
            let is_ipc = source_process is Renderer && message is Some && message->0.name@
                == "tauri:ipc"@;
            let url = message->0.arguments->0.url@;
            let address = if url.len() == 0 && frame_url is Some {
                frame_url->0@
            } else {
                url
            };
            &&& reception.handled == if is_ipc {
                1i32
            } else {
                0i32
            }
            &&& reception.call is Some <==> {
                &&& is_ipc
                &&& client.has_handler
                &&& message->0.arguments is Some
                &&& crate::ipc::parsed_uri(address) is Some
            }
            &&& reception.call is Some ==> {
                &&& address.len() > 0
                &&& reception.call->0.webview == client.webview
                &&& reception.call->0.request.address@ == address
                &&& crate::ipc::parsed_uri(address) == Some(reception.call->0.request.uri@)
                &&& reception.call->0.request.body@ == message->0.arguments->0.body@
            }
        }),
{
    crate::ipc::law_every_deliverable_message_is_delivered(
        client,
        source_process,
        message,
        frame_url,
        reception,
    );
}

/// From the page to the host: a string that a page posts from a frame with an address is
/// delivered exactly if the address can be read as a URI, as it was posted and for that
/// address, whatever frame the host names for the message.
pub proof fn law_posted_string_arrives_unchanged<W, V, C>(
    name: String,
    body: String,
    arguments: Vec<Option<V8Argument>>,
    url: String,
    execution: V8Execution,
    client: IpcClient<W, V, C>,
    frame_url: Option<String>,
    reception: IpcReception<W, V, C>,
)
    requires
        name@ == "postMessage"@,
        arguments@ == seq![Some(V8Argument::Text(body))],
        url@.len() > 0,
        client.has_handler,
        call_ensures(crate::ipc::execute, (Some(name), Some(arguments), Some(url)), execution),
        call_ensures(
            crate::ipc::on_process_message_received::<W, V, C>,
            (client, ProcessId::Renderer, execution.message, frame_url),
            reception,
        ),
    ensures
        execution.handled == 1,
        execution.returns_undefined,
        execution.exception is None,
        reception.handled == 1,
        reception.call is Some <==> crate::ipc::parsed_uri(url@) is Some,
        reception.call is Some ==> {
            &&& reception.call->0.webview == client.webview
            &&& reception.call->0.request.address@ == url@
            &&& reception.call->0.request.body@ == body@
        },
{
    crate::ipc::law_every_posted_string_is_sent(
        Some(name),
        Some(arguments),
        Some(url),
        execution,
    );
    crate::ipc::law_every_deliverable_message_is_delivered(
        client,
        ProcessId::Renderer,
        execution.message,
        frame_url,
        reception,
    );
}

/// The address of a request is the message's own unless it is empty and there is a frame.
pub proof fn law_address_of_a_request(url: String, frame_url: Option<String>, address: String)
    requires
        call_ensures(crate::ipc::request_target, (url, frame_url), address),
    ensures
        url@.len() > 0 || frame_url is None ==> address@ == url@,
        url@.len() == 0 && frame_url is Some ==> address@ == frame_url->0@,
{
}

/// A request that was built is handed on as it is, with the webview; one that was not is
/// dropped. The message counts as handled either way.
pub proof fn law_built_request_is_handed_on<W, V, C>(
    webview: DetachedWebview<W, V, C>,
    built: Result<IpcRequest, http::Error>,
    reception: IpcReception<W, V, C>,
)
    requires
        call_ensures(crate::ipc::receive::<W, V, C>, (webview, built), reception),
    ensures
        reception.handled == 1,
        reception.call is Some <==> built is Ok,
        reception.call is Some ==> reception.call->0.webview == webview,
        reception.call is Some ==> reception.call->0.request == built->Ok_0,
{
}

/// A context gets the whole message channel if CEF could provide all that it takes, and
/// nothing of it otherwise: the function on the new object and then that object on
/// `window`, each read-only, not enumerable and not deletable.
pub proof fn law_channel_is_whole_or_absent(
    has_global: bool,
    has_object: bool,
    has_function: bool,
    definitions: Vec<PropertyDefinition>,
    all: Vec<PropertyDefinition>,
)
    requires
        call_ensures(
            crate::ipc::channel_definitions,
            (has_global, has_object, has_function),
            definitions,
        ),
        call_ensures(crate::ipc::install_ipc_post_message, (), all),
    ensures
        !has_global || !has_object || !has_function ==> definitions@.len() == 0,
        has_global && has_object && has_function ==> definitions@.len() == 2,
        all@.len() == 2,
        all@[0].holder is Ipc,
        all@[0].key@ == "postMessage"@,
        all@[0].attributes == 1u32 | 2u32 | 4u32,
        all@[1].holder is Window,
        all@[1].key@ == "ipc"@,
        all@[1].attributes == 1u32 | 2u32 | 4u32,
        forall|k: int|
            #![trigger definitions@[k]]
            0 <= k < definitions@.len() ==> {
                &&& definitions@[k].holder == all@[k].holder
                &&& definitions@[k].key@ == all@[k].key@
                &&& definitions@[k].attributes == all@[k].attributes
            },
{
    crate::ipc::law_channel_is_constant(all@);
    if has_global && has_object && has_function {
        crate::ipc::law_channel_is_constant(definitions@);
    }
}

/// Combined flags have every bit of each flag, and no bit that none of them has.
pub proof fn law_combining_loses_no_bit(flags: &[u32], bits: u32, mask: u32)
    requires
        call_ensures(crate::ipc::combine, (flags,), bits),
    ensures
        forall|i: int| #![trigger flags@[i]] 0 <= i < flags@.len() ==> bits & flags@[i] == flags@[i],
        (forall|i: int| #![trigger flags@[i]] 0 <= i < flags@.len() ==> flags@[i] & mask == 0)
            ==> bits & mask == 0,
{
    crate::ipc::law_combined_flags_are_their_union(flags@, mask);
}

/// The scripts that a browser is created with are those that were packed for it: all of
/// them, each text as it was, in their order.
pub proof fn law_packed_scripts_come_out_again(
    scripts: Vec<&str>,
    extra_info: Option<ExtraInfo>,
    unpacked: Arc<Vec<String>>,
)
    requires
        call_ensures(
            crate::scripts::initialization_scripts_extra_info,
            (&scripts,),
            extra_info,
        ),
        call_ensures(
            crate::scripts::initialization_scripts_from_extra_info,
            (extra_info,),
            unpacked,
        ),
    ensures
        extra_info is None <==> scripts@.len() == 0,
        unpacked@.len() == scripts@.len(),
        forall|i: int|
            #![trigger unpacked@[i]]
            0 <= i < scripts@.len() ==> unpacked@[i]@ == scripts@[i]@,
{
    crate::scripts::law_all_scripts_are_packed(scripts@, extra_info);
    crate::scripts::law_unpacking_takes_the_list(extra_info);
}

/// Without extra information, or without a list in it, there are no scripts; with a list
/// there are those of the list.
pub proof fn law_unpacked_scripts_are_the_list(
    extra_info: Option<ExtraInfo>,
    unpacked: Arc<Vec<String>>,
)
    requires
        call_ensures(
            crate::scripts::initialization_scripts_from_extra_info,
            (extra_info,),
            unpacked,
        ),
    ensures
        extra_info is None || extra_info->0.scripts is None ==> unpacked@.len() == 0,
        extra_info is Some && extra_info->0.scripts is Some ==> unpacked@
            == extra_info->0.scripts->0@,
{
    crate::scripts::law_unpacking_takes_the_list(extra_info);
}

/// A creation counts one more browser for a known identifier and gives it the new scripts if
/// there are any; it enters an unknown one, with a count of one, exactly if there are
/// scripts. Every other identifier keeps what it had.
pub proof fn law_registering_touches_one_identifier(
    entries: &mut HashMap<i32, BrowserInitializationScriptState>,
    browser_identifier: i32,
    scripts: Arc<Vec<String>>,
    other: i32,
)
    requires
        call_ensures(
            crate::scripts::register_browser_initialization_scripts,
            (entries, browser_identifier, scripts),
            (),
        ),
        old(entries)@.contains_key(browser_identifier)
            ==> old(entries)@[browser_identifier].active_browser_count < usize::MAX,
        other != browser_identifier,
    ensures
        ({
            let before = old(entries)@;
            let after = final(entries)@;
            let known = before.contains_key(browser_identifier);
            &&& after.contains_key(browser_identifier) <==> known || scripts@.len() > 0
            &&& known ==> after[browser_identifier].active_browser_count
                == before[browser_identifier].active_browser_count + 1
            &&& !known && scripts@.len() > 0 ==> after[browser_identifier].active_browser_count
                == 1
            &&& scripts@.len() > 0 ==> after[browser_identifier].scripts == scripts
            &&& known && scripts@.len() == 0 ==> after[browser_identifier].scripts
                == before[browser_identifier].scripts
            &&& after.contains_key(other) <==> before.contains_key(other)
            &&& before.contains_key(other) ==> after[other] == before[other]
        }),
{
    crate::scripts::law_creation_counts_and_brings_scripts(
        old(entries)@,
        browser_identifier,
        scripts,
    );
    crate::scripts::law_other_identifiers_keep_their_scripts(
        old(entries)@,
        browser_identifier,
        scripts,
        other,
    );
}

/// A destruction counts one browser less and keeps the scripts; with the last browser it
/// removes the entry. Every other identifier keeps what it had.
pub proof fn law_unregistering_touches_one_identifier(
    entries: &mut HashMap<i32, BrowserInitializationScriptState>,
    browser_identifier: i32,
    other: i32,
)
    requires
        call_ensures(
            crate::scripts::unregister_browser_initialization_scripts,
            (entries, browser_identifier),
            (),
        ),
        other != browser_identifier,
    ensures
        ({
            let before = old(entries)@;
            let after = final(entries)@;
            &&& after.contains_key(browser_identifier) <==> before.contains_key(browser_identifier)
                && before[browser_identifier].active_browser_count > 1
            &&& after.contains_key(browser_identifier) ==> {
                &&& after[browser_identifier].active_browser_count
                    == before[browser_identifier].active_browser_count - 1
                &&& after[browser_identifier].scripts == before[browser_identifier].scripts
            }
            &&& after.contains_key(other) <==> before.contains_key(other)
            &&& before.contains_key(other) ==> after[other] == before[other]
        }),
{
    crate::scripts::law_destruction_removes_the_last(old(entries)@, browser_identifier);
    crate::scripts::law_other_identifiers_keep_their_scripts(
        old(entries)@,
        browser_identifier,
        old(entries)@[browser_identifier].scripts,
        other,
    );
}

/// Scripts are found under the identifier that they were entered for, whatever happens to a
/// browser of another identifier meanwhile.
pub proof fn law_scripts_are_found_again(
    entries: &mut HashMap<i32, BrowserInitializationScriptState>,
    browser_identifier: i32,
    scripts: Arc<Vec<String>>,
    between: &mut HashMap<i32, BrowserInitializationScriptState>,
    other: i32,
    other_scripts: Arc<Vec<String>>,
    then: &mut HashMap<i32, BrowserInitializationScriptState>,
    after: HashMap<i32, BrowserInitializationScriptState>,
    found: Option<Arc<Vec<String>>>,
)
    requires
        call_ensures(
            crate::scripts::register_browser_initialization_scripts,
            (entries, browser_identifier, scripts),
            (),
        ),
        *between == *final(entries),
        call_ensures(
            crate::scripts::register_browser_initialization_scripts,
            (between, other, other_scripts),
            (),
        ),
        *then == *final(between),
        call_ensures(
            crate::scripts::unregister_browser_initialization_scripts,
            (then, other),
            (),
        ),
        after == *final(then),
        call_ensures(crate::scripts::scripts_for_browser, (&after, browser_identifier), found),
        other != browser_identifier,
        scripts@.len() > 0,
    ensures
        found == Some(scripts),
{
    crate::scripts::law_other_identifiers_keep_their_scripts(
        between@,
        other,
        other_scripts,
        browser_identifier,
    );
    crate::scripts::law_other_identifiers_keep_their_scripts(
        then@,
        other,
        other_scripts,
        browser_identifier,
    );
}

/// The scripts of an identifier are found exactly if there is an entry for it, and are that
/// entry's.
pub proof fn law_scripts_are_those_of_the_entry(
    entries: HashMap<i32, BrowserInitializationScriptState>,
    browser_identifier: i32,
    found: Option<Arc<Vec<String>>>,
)
    requires
        call_ensures(crate::scripts::scripts_for_browser, (&entries, browser_identifier), found),
    ensures
        found is Some <==> entries@.contains_key(browser_identifier),
        found is Some ==> found->0 == entries@[browser_identifier].scripts,
{
}

/// The message channel is installed in every context; in a child frame of a browser, and
/// only there, the scripts are evaluated that are found for the browser.
pub proof fn law_child_frames_get_the_scripts(
    handler: TauriRenderProcessHandler,
    browser: Option<i32>,
    frame_is_main: Option<i32>,
    has_context: bool,
    setup: ContextSetup,
    found: Option<Arc<Vec<String>>>,
)
    requires
        call_ensures(
            TauriRenderProcessHandler::on_context_created,
            (&handler, browser, frame_is_main, has_context),
            setup,
        ),
        browser is Some ==> call_ensures(
            crate::scripts::scripts_for_browser,
            (&handler.browser_initialization_scripts, browser->0),
            found,
        ),
    ensures
        setup.install_ipc == has_context,
        has_context && browser is Some && frame_is_main == Some(0i32) ==> setup.scripts == found,
        !has_context || browser is None || frame_is_main != Some(0i32) ==> setup.scripts is None,
{
}

/// From the host to the child frames: a browser that is created with scripts under an
/// identifier has exactly these evaluated in its child frames, whatever was known of the
/// identifier before.
pub proof fn law_created_browser_runs_its_scripts(
    handler: &mut TauriRenderProcessHandler,
    scripts: Vec<&str>,
    extra_info: Option<ExtraInfo>,
    browser: i32,
    after: TauriRenderProcessHandler,
    setup: ContextSetup,
)
    requires
        scripts@.len() > 0,
        call_ensures(
            crate::scripts::initialization_scripts_extra_info,
            (&scripts,),
            extra_info,
        ),
        call_ensures(
            TauriRenderProcessHandler::on_browser_created,
            (handler, Some(browser), extra_info),
            (),
        ),
        after == *final(handler),
        call_ensures(
            TauriRenderProcessHandler::on_context_created,
            (&after, Some(browser), Some(0i32), true),
            setup,
        ),
    ensures
        setup.scripts is Some,
        setup.scripts->0@.len() == scripts@.len(),
        forall|i: int|
            #![trigger setup.scripts->0@[i]]
            0 <= i < scripts@.len() ==> setup.scripts->0@[i]@ == scripts@[i]@,
{
    crate::scripts::law_all_scripts_are_packed(scripts@, extra_info);
    crate::scripts::law_unpacking_takes_the_list(extra_info);
}

/// Neither the creation nor the destruction of a browser changes what the child frames of
/// another identifier get; where CEF names no browser nothing changes at all.
pub proof fn law_other_browsers_keep_their_scripts(
    handler: &mut TauriRenderProcessHandler,
    created: Option<i32>,
    extra_info: Option<ExtraInfo>,
    then: &mut TauriRenderProcessHandler,
    destroyed: Option<i32>,
    browser: i32,
)
    requires
        call_ensures(
            TauriRenderProcessHandler::on_browser_created,
            (handler, created, extra_info),
            (),
        ),
        *then == *final(handler),
        call_ensures(TauriRenderProcessHandler::on_browser_destroyed, (then, destroyed), ()),
        created != Some(browser),
        destroyed != Some(browser),
    ensures
        ({
            let before = old(handler).browser_initialization_scripts@;
            let after = final(then).browser_initialization_scripts@;
            &&& after.contains_key(browser) <==> before.contains_key(browser)
            &&& before.contains_key(browser) ==> after[browser] == before[browser]
            &&& created is None && destroyed is None ==> after == before
        }),
{
    let before = old(handler).browser_initialization_scripts@;
    let between = then.browser_initialization_scripts@;
    if created is Some {
        let scripts = choose|scripts: Arc<Vec<String>>|
            {
                &&& scripts@ == crate::scripts::scripts_of(extra_info)
                &&& between == #[trigger] crate::scripts::registered(before, created->0, scripts)
            };
        crate::scripts::law_other_identifiers_keep_their_scripts(
            before,
            created->0,
            scripts,
            browser,
        );
    }
    if destroyed is Some {
        crate::scripts::law_other_identifiers_keep_their_scripts(
            between,
            destroyed->0,
            between[browser].scripts,
            browser,
        );
    }
}

/// A browser that was created and destroyed again leaves nothing behind: the identifier has
/// what it had before, unless it was known and the browser brought scripts, which stay with
/// the browsers that are left.
pub proof fn law_created_and_destroyed_browser_leaves_nothing(
    handler: &mut TauriRenderProcessHandler,
    browser: i32,
    extra_info: Option<ExtraInfo>,
    then: &mut TauriRenderProcessHandler,
)
    requires
        call_ensures(
            TauriRenderProcessHandler::on_browser_created,
            (handler, Some(browser), extra_info),
            (),
        ),
        *then == *final(handler),
        call_ensures(TauriRenderProcessHandler::on_browser_destroyed, (then, Some(browser)), ()),
        old(handler).browser_initialization_scripts@.contains_key(browser) ==> 1 <= old(
            handler,
        ).browser_initialization_scripts@[browser].active_browser_count < usize::MAX,
    ensures
        ({
            let before = old(handler).browser_initialization_scripts@;
            let after = final(then).browser_initialization_scripts@;
            &&& after.contains_key(browser) <==> before.contains_key(browser)
            &&& before.contains_key(browser) ==> after[browser].active_browser_count
                == before[browser].active_browser_count
            &&& before.contains_key(browser) && (extra_info is None
                || extra_info->0.scripts is None) ==> after[browser].scripts
                == before[browser].scripts
            &&& before.contains_key(browser) && extra_info is Some && extra_info->0.scripts is Some
                && extra_info->0.scripts->0@.len() > 0 ==> after[browser].scripts@
                == extra_info->0.scripts->0@
        }),
{
    let before = old(handler).browser_initialization_scripts@;
    let between = then.browser_initialization_scripts@;
    let scripts = choose|scripts: Arc<Vec<String>>|
        {
            &&& scripts@ == crate::scripts::scripts_of(extra_info)
            &&& between == #[trigger] crate::scripts::registered(before, browser, scripts)
        };
    crate::scripts::law_creation_counts_and_brings_scripts(before, browser, scripts);
    crate::scripts::law_destruction_removes_the_last(between, browser);
    crate::scripts::law_unpacking_takes_the_list(extra_info);
}

/// A new handler knows no browser: no child frame gets a script.
pub proof fn law_new_handler_knows_no_browser(
    handler: TauriRenderProcessHandler,
    browser: Option<i32>,
    frame_is_main: Option<i32>,
    has_context: bool,
    setup: ContextSetup,
)
    requires
        call_ensures(TauriRenderProcessHandler::new, (), handler),
        call_ensures(
            TauriRenderProcessHandler::on_context_created,
            (&handler, browser, frame_is_main, has_context),
            setup,
        ),
    ensures
        setup.scripts is None,
{
}

/// A browser can always be entered unless as many are counted for its identifier as a
/// machine word holds, and can always be taken out; scripts can always be asked for.
pub proof fn law_scripts_can_be_kept_for_any_browser(
    entries: &mut HashMap<i32, BrowserInitializationScriptState>,
    handler: &mut TauriRenderProcessHandler,
    browser_identifier: i32,
    scripts: Arc<Vec<String>>,
    extra_info: Option<ExtraInfo>,
    frame_is_main: Option<i32>,
    has_context: bool,
)
    requires
        !entries@.contains_key(browser_identifier)
            || entries@[browser_identifier].active_browser_count < usize::MAX,
        handler.browser_initialization_scripts@ == entries@,
    ensures
        call_requires(
            crate::scripts::register_browser_initialization_scripts,
            (entries, browser_identifier, scripts),
        ),
        call_requires(
            TauriRenderProcessHandler::on_browser_created,
            (handler, Some(browser_identifier), extra_info),
        ),
        call_requires(
            crate::scripts::unregister_browser_initialization_scripts,
            (entries, browser_identifier),
        ),
        call_requires(
            TauriRenderProcessHandler::on_browser_destroyed,
            (handler, Some(browser_identifier)),
        ),
        call_requires(
            crate::scripts::scripts_for_browser,
            (&*old(entries), browser_identifier),
        ),
        call_requires(
            TauriRenderProcessHandler::on_context_created,
            (&*old(handler), Some(browser_identifier), frame_is_main, has_context),
        ),
{
}

/// A page may call with any arguments, and any message may arrive.
pub proof fn law_any_message_is_taken<W, V, C>(
    name: Option<String>,
    arguments: Option<Vec<Option<V8Argument>>>,
    frame_url: Option<String>,
    client: IpcClient<W, V, C>,
    source_process: ProcessId,
    message: Option<ProcessMessage>,
)
    ensures
        call_requires(crate::ipc::execute, (name, arguments, frame_url)),
        call_requires(
            crate::ipc::on_process_message_received::<W, V, C>,
            (client, source_process, message, frame_url),
        ),
{
}

} // verus!
