# luaufusion

A proxy between Luau and other languages: v8 in an isolate of its own, a second Luau state in a
process of its own, and QuickJS in the same thread.

Values cross in three ways. Primitives and psuedoprimitives are copied. Objects stay where they
are: a registry gives them a number, and the number crosses.

`src/` holds the rules, verified with Verus: what a value becomes on the other side, what it costs
against the payload limit, which objects are held and when they are let go, what each side does
with a message, and what is said when something fails. Values of Luau, v8 and QuickJS are written
down there as plain data.

- `registry`: numbers for objects.
- `luau`: values of Luau, its bridge, messages and the payload account.
- `denobridge`: the v8 bridge. The files that begin with `law_` state what holds of it as a whole.
- `deno`, `base`: the bridge in which every v8 object and long string is a reference, and the
  processes that it runs in.
- `parallelluau`: a Luau state beside the host state.
- `rquickjs`: QuickJS.
- `transport`: how a process gets its channel.
- `text`, `outcome`: small helpers.

`app/` performs what the rules decide: it reads and makes the values of the engines, and runs the
channels, processes and event loops.
