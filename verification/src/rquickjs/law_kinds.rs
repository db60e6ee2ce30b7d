//! What each kind of value becomes on its way into and out of QuickJS.

use vstd::prelude::*;
use vstd::utf8::{decode_utf8, encode_utf8, valid_utf8};

use crate::luau::value::{LuauView, Number, PayloadView, Stub, FRESH};
use crate::registry::{ObjectRef, RefKind};
use crate::rquickjs::runtime::{released, RuntimeEvent};
use crate::rquickjs::value::{in_qjs, of_qjs, QjsStep, QjsTreeView, QjsView, StoresView};
use crate::text::lossy_text;

verus! {

/// What the values of Luau become: an integer keeps its value, as a bigint where it needs more than 32
/// bits, and a text its letters; a vector becomes an array of its three components in their order; a
/// buffer becomes an array buffer of its bytes, and other objects are passed as they are.
pub proof fn law_luau_values_in_qjs(v: LuauView)
    ensures
        v is Nil ==> in_qjs(v) == Ok::<QjsTreeView, Seq<char>>(QjsTreeView::Null),
        v matches LuauView::Boolean(b) ==> in_qjs(v)
            == Ok::<QjsTreeView, Seq<char>>(QjsTreeView::Bool(b)),
        v matches LuauView::LightUserData(i) ==> in_qjs(v)
            == Ok::<QjsTreeView, Seq<char>>(QjsTreeView::LuaLightUserData(i)),
        v matches LuauView::Integer(i)
            ==> (-0x8000_0000 <= i <= 0x7fff_ffff ==> in_qjs(v)
                == Ok::<QjsTreeView, Seq<char>>(QjsTreeView::Int(i as i32))),
        v matches LuauView::Integer(i)
            ==> (i < -0x8000_0000 || i > 0x7fff_ffff ==> in_qjs(v)
                == Ok::<QjsTreeView, Seq<char>>(QjsTreeView::BigInt(i))),
        v matches LuauView::Number(n) ==> in_qjs(v)
            == Ok::<QjsTreeView, Seq<char>>(QjsTreeView::Float(n)),
        v matches LuauView::Vector(x) ==> in_qjs(v)
            == Ok::<QjsTreeView, Seq<char>>(QjsTreeView::Array(
                seq![
                    QjsTreeView::Float(Number::OfSingle(x.x)),
                    QjsTreeView::Float(Number::OfSingle(x.y)),
                    QjsTreeView::Float(Number::OfSingle(x.z)),
                ],
            )),
        v matches LuauView::String(bytes)
            ==> (valid_utf8(bytes) ==> in_qjs(v)
                == Ok::<QjsTreeView, Seq<char>>(QjsTreeView::String(decode_utf8(bytes)))),
        v matches LuauView::String(bytes)
            ==> (!valid_utf8(bytes) ==> in_qjs(v)
                == Ok::<QjsTreeView, Seq<char>>(QjsTreeView::String(lossy_text(bytes)))),
        v matches LuauView::UserData { handle, .. } ==> in_qjs(v)
            == Ok::<QjsTreeView, Seq<char>>(QjsTreeView::LuaUserData(ObjectRef { kind: RefKind::UserData, handle })),
        v matches LuauView::Buffer { bytes, .. } ==> in_qjs(v)
            == Ok::<QjsTreeView, Seq<char>>(QjsTreeView::ArrayBuffer(bytes)),
        v matches LuauView::Ref(obj) ==> match obj.kind {
            RefKind::Function => in_qjs(v)
                == Ok::<QjsTreeView, Seq<char>>(QjsTreeView::LuaFunction(obj)),
            RefKind::Thread => in_qjs(v)
                == Ok::<QjsTreeView, Seq<char>>(QjsTreeView::LuaThread(obj)),
            RefKind::UserData => in_qjs(v)
                == Ok::<QjsTreeView, Seq<char>>(QjsTreeView::LuaUserData(obj)),
            _ => in_qjs(v) is Err,
        },
        v matches LuauView::Stub(_) ==> in_qjs(v) is Err,
        v matches LuauView::Error(_) ==> in_qjs(v) is Err,
        v matches LuauView::Other(_) ==> in_qjs(v) is Err,
{
}

/// What the values of QuickJS become: a number keeps its value and a text its letters, null and
/// undefined become nil, and what came from Luau becomes itself again. A function and a promise are
/// put into the store of their sort, and the other stores stay as they are.
pub proof fn law_qjs_values_in_luau(v: QjsView, stores: StoresView)
    ensures
        v is Null ==> of_qjs(v, stores) == (QjsStep { stores, res: Ok(LuauView::Nil) }),
        v is Undefined ==> of_qjs(v, stores) == (QjsStep { stores, res: Ok(LuauView::Nil) }),
        v matches QjsView::Bool(b) ==> of_qjs(v, stores)
            == (QjsStep { stores, res: Ok(LuauView::Boolean(b)) }),
        v matches QjsView::Int(i) ==> of_qjs(v, stores)
            == (QjsStep { stores, res: Ok(LuauView::Integer(i as i64)) }),
        v matches QjsView::Float(n) ==> of_qjs(v, stores)
            == (QjsStep { stores, res: Ok(LuauView::Number(n)) }),
        v matches QjsView::String(s) ==> of_qjs(v, stores)
            == (QjsStep { stores, res: Ok(LuauView::String(encode_utf8(s))) }),
        v matches QjsView::LuaThread(obj) ==> of_qjs(v, stores)
            == (QjsStep { stores, res: Ok(LuauView::Ref(obj)) }),
        v matches QjsView::LuaUserData(obj) ==> of_qjs(v, stores)
            == (QjsStep { stores, res: Ok(LuauView::Ref(obj)) }),
        v matches QjsView::LuaLightUserData(i) ==> of_qjs(v, stores)
            == (QjsStep { stores, res: Ok(LuauView::LightUserData(i)) }),
        v matches QjsView::Function { handle, .. } ==> of_qjs(v, stores) == (QjsStep {
            stores: StoresView { funcs: stores.funcs.added(handle), ..stores },
            res: Ok(LuauView::Stub(Stub::JsFunction(stores.funcs.next() as usize))),
        }),
        v matches QjsView::Promise(handle) ==> of_qjs(v, stores) == (QjsStep {
            stores: StoresView { promises: stores.promises.added(handle), ..stores },
            res: Ok(
                LuauView::UserData {
                    handle: FRESH,
                    payload: PayloadView::JsPromise(stores.promises.next() as usize),
                },
            ),
        }),
        v matches QjsView::Foreign(_) ==> of_qjs(v, stores).res is Err && of_qjs(v, stores).stores
            == stores,
        v matches QjsView::Unreadable(e) ==> of_qjs(v, stores).res == Err::<LuauView, Seq<char>>(e)
            && of_qjs(v, stores).stores == stores,
{
}

/// What was asked of a value is over: a handle that is the last of its value gives the value back, and
/// no other value goes with it.
pub proof fn law_only_the_last_handle_gives_back(stores: StoresView, event: RuntimeEvent,
    other: int)
    ensures
        event matches RuntimeEvent::RunQuickjsProxy { func_idx, .. } ==> {
            let after = released(stores, event);
            &&& func_idx.drop ==> after.funcs.at(func_idx.index as int) is None
            &&& !func_idx.drop || other != func_idx.index ==> after.funcs.at(other)
                == stores.funcs.at(other)
            &&& after.promises == stores.promises
            &&& after.objects == stores.objects
        },
        event matches RuntimeEvent::RunQuickjsPromiseProxy { promise_idx } ==> {
            let after = released(stores, event);
            &&& promise_idx.drop ==> after.promises.at(promise_idx.index as int) is None
            &&& !promise_idx.drop || other != promise_idx.index ==> after.promises.at(other)
                == stores.promises.at(other)
            &&& after.funcs == stores.funcs
            &&& after.objects == stores.objects
        },
        event matches RuntimeEvent::GetQuickjsObject { obj_idx, .. } ==> {
            let after = released(stores, event);
            &&& obj_idx.drop ==> after.objects.at(obj_idx.index as int) is None
            &&& !obj_idx.drop || other != obj_idx.index ==> after.objects.at(other)
                == stores.objects.at(other)
            &&& after.funcs == stores.funcs
            &&& after.promises == stores.promises
        },
        event is Shutdown || event is AddAsync || event is RunQuickjsModule ==> released(
            stores,
            event,
        ) == stores,
{
}

} // verus!
