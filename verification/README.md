# rust_gui

The core of a small retained-mode GUI toolkit, written in Verus. Every
function in `src/` carries a contract; Verus proves all of them except three
small trusted wrappers, whose contracts restate what the called function
does: `String::push`, `str::to_lowercase` and ash's `vk::make_api_version`.

- `text`: trimming, splitting, joining, ASCII case and number texts.
- `color`, `version`: colours and packed version numbers.
- `attribute`: attribute values and the per-element attribute table.
- `node`: the document tree (an arena of nodes) with its content and
  attribute operations, and the laws that tie them together.
- `event`, `dispatch`: events, their names and typed details, the window
  and application events a name and a detail stand for, and routing an
  event through chains of listener tables (the caller runs the listeners
  in between). Floating-point payloads are carried by their bit patterns.
- `history`, `listener`: remembered pointer positions and the matching of
  window input to listeners.
- `render`: the renderer's decisions (device, memory type, swapchain
  settings, draw commands, pipeline binds, frames, what a failed acquire
  or present means) and its error texts.

`app/` is the program around the library: winit's event loop, the Vulkan
calls, floating-point geometry and the listener functions themselves.
