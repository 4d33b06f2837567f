# tauri_runtime_cef

The decisions of a webview runtime on top of CEF, verified with Verus, and the
CEF callbacks around them.

- `src/popup.rs`, `src/revocation.rs`: families of popups; which browser may open
  one, and which popups are revoked when a browser closes.
- `src/close_order.rs`, `src/close_sequence.rs`, `src/lineage.rs`: what holds of
  closes: that the order in which they arrive does not matter, that each popup is
  handed out for native close at most once, and that no descendant of a closed
  browser is reported.
- `src/observation.rs`: what is reported of the popups of a family, and how long a
  window keeps its token.
- `src/scripts.rs`: initialization scripts, which live as long as a browser of
  their identifier does.
- `src/ipc.rs`: the way of a posted string from a page to the webview's handler.
- `app/`: the callbacks, which query CEF and carry out what the library decides.

What is taken on trust is `Arc::clone`, building a request with the `http` crate
and three constants of the `cef` crate; each is stated at the function that makes
the call.
