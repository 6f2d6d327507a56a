//! The script engine, seen from here: values to be carried about, and the few things done with
//! them. What a script does when it runs is up to the script, so which of its outcomes a call has is
//! not said. What is said is what becomes of plain values that go in and come out, and which call it
//! is that an outcome belongs to: the predicates `may_..` relate the engine before a call, what was
//! handed to it, the engine after it and what came back. They hold of every outcome that there can
//! be, and nothing else is claimed of them.

use crate::numbers::Double;
use crate::script::bridge;
use crate::script::bridge::Native;
use crate::script::host;
use crate::script::host::{Host, Seat};
use boa_engine::object::builtins::{AlignedVec, JsArray, JsArrayBuffer, JsDataView};
use boa_engine::object::FunctionObjectBuilder;
use boa_engine::property::PropertyDescriptor;
use boa_engine::{Context, JsError, JsObject, JsString, JsValue, NativeFunction, Source};
use vstd::prelude::*;

verus! {

/// The engine with everything that scripts have made in it.
#[verifier::external_type_specification]
#[verifier::external_body]
pub struct ExContext(boa_engine::Context);

/// A value of the engine.
#[verifier::external_type_specification]
#[verifier::external_body]
pub struct ExJsValue(boa_engine::JsValue);

/// What a script threw.
#[verifier::external_type_specification]
#[verifier::external_body]
pub struct ExJsError(boa_engine::JsError);

/// A text as a value of the engine: what `JsString::from` and `JsValue::from` make of it.
pub uninterp spec fn js_text(text: Seq<char>) -> JsValue;

/// An integer as a value of the engine: what `JsValue::from` makes of it.
pub uninterp spec fn js_integer(n: u32) -> JsValue;

/// An integer with a sign as a value of the engine: what `JsValue::from` makes of it.
pub uninterp spec fn js_signed(n: i32) -> JsValue;

/// A flag as a value of the engine: what `JsValue::from` makes of it.
pub uninterp spec fn js_flag(flag: bool) -> JsValue;

/// The number of single precision with these bits as a value of the engine: what
/// `JsDataView::get_float32` reads them as, and `JsValue::from` makes of it.
pub uninterp spec fn js_real(bits: u32) -> JsValue;

/// Whether a value is the null of the engine, as `JsValue::is_null` says.
pub uninterp spec fn js_is_null(value: JsValue) -> bool;

/// Whether a value is the undefined of the engine, as `JsValue::is_undefined` says.
pub uninterp spec fn js_is_undefined(value: JsValue) -> bool;

/// Whether a value is an object, as `JsValue::is_object` says.
pub uninterp spec fn js_is_object(value: JsValue) -> bool;

/// Whether a value counts as true, as `JsValue::to_boolean` says.
pub uninterp spec fn js_truth(value: JsValue) -> bool;

/// The text of a value that is one, as `JsValue::as_string` gives it.
pub uninterp spec fn js_text_in(value: JsValue) -> Option<Seq<char>>;

/// The object that holds the global names of an engine, as `Context::global_object` gives it.
pub uninterp spec fn js_global(context: Context) -> JsValue;

/// What `Context::default` and `Context::set_runtime_limits` may make.
pub uninterp spec fn may_start(loops: u64, depth: usize, context: Context) -> bool;

/// What `Context::eval` may come to on a source.
pub uninterp spec fn may_eval(
    before: Context,
    source: Seq<char>,
    after: Context,
    reply: Result<JsValue, JsError>,
) -> bool;

/// What `JsObject::get` may come to on a property.
pub uninterp spec fn may_get(
    before: Context,
    object: JsValue,
    name: Seq<char>,
    after: Context,
    reply: Option<Result<JsValue, JsError>>,
) -> bool;

/// What `JsObject::set` may come to on a property and a value.
pub uninterp spec fn may_set(
    before: Context,
    object: JsValue,
    name: Seq<char>,
    value: JsValue,
    after: Context,
    done: bool,
) -> bool;

/// What `JsObject::delete_property_or_throw` may come to on a property.
pub uninterp spec fn may_remove(
    before: Context,
    object: JsValue,
    name: Seq<char>,
    after: Context,
    done: bool,
) -> bool;

/// What `JsObject::call` may come to on a function and its arguments.
pub uninterp spec fn may_call(
    before: Context,
    function: JsValue,
    this: JsValue,
    args: Seq<JsValue>,
    after: Context,
    reply: Option<Result<JsValue, JsError>>,
) -> bool;

/// What `JsValue::to_string` may come to on a value.
pub uninterp spec fn may_show(
    before: Context,
    value: JsValue,
    after: Context,
    reply: Result<String, JsError>,
) -> bool;

/// What `JsValue::to_string` may come to on a value, with what is no character replaced.
pub uninterp spec fn may_show_lossy(
    before: Context,
    value: JsValue,
    after: Context,
    reply: Result<String, JsError>,
) -> bool;

/// What `JsDataView::get_float32` may come to on the bits of a number.
pub uninterp spec fn may_make_real(
    before: Context,
    bits: u32,
    after: Context,
    reply: Result<JsValue, JsError>,
) -> bool;

/// What `JsValue::to_number` may come to on a value.
pub uninterp spec fn may_count(
    before: Context,
    value: JsValue,
    after: Context,
    reply: Result<u64, JsError>,
) -> bool;

/// What `JsValue::to_f32` may come to on a value.
pub uninterp spec fn may_count_single(
    before: Context,
    value: JsValue,
    after: Context,
    reply: Result<u32, JsError>,
) -> bool;

/// What `JsError` may write itself out as.
pub uninterp spec fn may_say(error: JsError, message: Seq<char>) -> bool;

/// What `JsArray::from_iter` may make of values.
pub uninterp spec fn may_make_array(
    before: Context,
    items: Seq<JsValue>,
    after: Context,
    array: JsValue,
) -> bool;

/// What `JsObject::with_object_proto` may make.
pub uninterp spec fn may_make_object(context: Context, object: JsValue) -> bool;

/// What `FunctionObjectBuilder::build` may make for one of the functions of scripts, with that name
/// and that number of arguments.
pub uninterp spec fn may_make_function(
    context: Context,
    native: Native,
    name: Seq<char>,
    length: usize,
    function: JsValue,
) -> bool;

/// What `JsObject::define_property_or_throw` may come to on a property and a value; `listed` says
/// whether the property is enumerated.
pub uninterp spec fn may_define(
    before: Context,
    object: JsValue,
    name: Seq<char>,
    value: JsValue,
    listed: bool,
    after: Context,
    done: bool,
) -> bool;

/// What `Context::insert_data` may come to on a host.
pub uninterp spec fn may_lend(before: Context, host: Host, after: Context) -> bool;

/// What `Context::remove_data` may come to.
pub uninterp spec fn may_fetch(before: Context, after: Context, host: Option<Host>) -> bool;

/// `Context::default` starts an engine; its `RuntimeLimits` say how often a loop may go round and
/// how deep calls may go before the engine throws. The engine is opaque, so nothing else is claimed.
#[verifier::external_body]
pub(crate) fn start(loops: u64, depth: usize) -> (result: Context)
    ensures
        may_start(loops, depth, result),
{
    let mut context = Context::default();
    let mut limits = context.runtime_limits();
    limits.set_loop_iteration_limit(loops);
    limits.set_recursion_limit(depth);
    context.set_runtime_limits(limits);
    context
}

/// `Context::eval` runs a source and gives its last value, or what it threw. Which of them is not
/// claimed.
#[verifier::external_body]
pub(crate) fn eval(context: &mut Context, source: &str) -> (result: Result<JsValue, JsError>)
    ensures
        may_eval(*old(context), source@, *final(context), result),
{
    context.eval(Source::from_bytes(source))
}

/// `Context::global_object` gives the object that holds the global names.
#[verifier::external_body]
pub(crate) fn global(context: &Context) -> (result: JsValue)
    ensures
        result == js_global(*context),
{
    JsValue::from(context.global_object())
}

/// `JsObject::get` reads a property, which may run a script; only objects have properties, and there
/// is no reply for anything else. What the property holds is not claimed.
#[verifier::external_body]
pub(crate) fn get(context: &mut Context, object: &JsValue, name: &str) -> (result: Option<
    Result<JsValue, JsError>,
>)
    ensures
        may_get(*old(context), *object, name@, *final(context), result),
        result is None ==> !js_is_object(*object),
        !js_is_object(*object) ==> result is None,
{
    match object.as_object() {
        Some(object) => Some(object.get(JsString::from(name), context)),
        None => None,
    }
}

/// `JsObject::set` writes a property, which may run a script, and throws where it cannot; only
/// objects have properties. The result says whether it was written.
#[verifier::external_body]
pub(crate) fn set(context: &mut Context, object: &JsValue, name: &str, value: &JsValue) -> (result:
    bool)
    ensures
        may_set(*old(context), *object, name@, *value, *final(context), result),
        result ==> js_is_object(*object),
{
    match object.as_object() {
        Some(object) => object.set(JsString::from(name), value.clone(), true, context).is_ok(),
        None => false,
    }
}

/// `JsObject::delete_property_or_throw` takes a property away; only objects have properties. The
/// result says whether it is gone.
#[verifier::external_body]
pub(crate) fn remove(context: &mut Context, object: &JsValue, name: &str) -> (result: bool)
    ensures
        may_remove(*old(context), *object, name@, *final(context), result),
        result ==> js_is_object(*object),
{
    match object.as_object() {
        Some(object) => object.delete_property_or_throw(JsString::from(name), context).is_ok(),
        None => false,
    }
}

/// `JsObject::call` calls a function and gives its value, or what it threw; what is no function
/// cannot be called, and there is no reply from it. Functions are objects. Which value it is is not
/// claimed.
#[verifier::external_body]
pub(crate) fn call(
    context: &mut Context,
    function: &JsValue,
    this: &JsValue,
    args: &Vec<JsValue>,
) -> (result: Option<Result<JsValue, JsError>>)
    ensures
        may_call(*old(context), *function, *this, args@, *final(context), result),
        result is Some ==> js_is_object(*function),
{
    match function.as_callable() {
        Some(function) => Some(function.call(this, args, context)),
        None => None,
    }
}

/// `JsValue::is_object` says whether a value is an object. Texts, integers and flags are none.
#[verifier::external_body]
pub(crate) fn is_object(value: &JsValue) -> (result: bool)
    ensures
        result == js_is_object(*value),
        forall|t: Seq<char>| *value == #[trigger] js_text(t) ==> !result,
        forall|n: u32| *value == #[trigger] js_integer(n) ==> !result,
        forall|b: bool| *value == #[trigger] js_flag(b) ==> !result,
{
    value.is_object()
}

/// `JsValue::as_string` gives the text of a value that is one, and nothing for an integer or a
/// flag. What was put in comes out.
#[verifier::external_body]
pub(crate) fn text_of(value: &JsValue) -> (result: Option<String>)
    ensures
        result is Some == js_text_in(*value) is Some,
        result is Some ==> result->Some_0@ == js_text_in(*value)->Some_0,
        forall|t: Seq<char>| *value == #[trigger] js_text(t) ==> result is Some && result->Some_0@ == t,
        forall|n: u32| *value == #[trigger] js_integer(n) ==> result is None,
        forall|b: bool| *value == #[trigger] js_flag(b) ==> result is None,
{
    match value.as_string() {
        Some(text) => Some(text.to_std_string_escaped()),
        None => None,
    }
}

/// `JsValue::to_string` writes a value out, which may run a script, and may throw. A text is
/// written as it is; what other values are written as is not claimed.
#[verifier::external_body]
pub(crate) fn show(context: &mut Context, value: &JsValue) -> (result: Result<String, JsError>)
    ensures
        may_show(*old(context), *value, *final(context), result),
        forall|t: Seq<char>| *value == #[trigger] js_text(t) ==> result is Ok && result->Ok_0@ == t,
{
    match value.to_string(context) {
        Ok(text) => Ok(text.to_std_string_escaped()),
        Err(error) => Err(error),
    }
}

/// `JsValue::to_string` writes a value out, which may run a script, and may throw;
/// `JsString::to_std_string_lossy` puts a mark in the place of what is no character. A text is
/// written as it is; what other values are written as is not claimed.
#[verifier::external_body]
pub(crate) fn show_lossy(context: &mut Context, value: &JsValue) -> (result: Result<
    String,
    JsError,
>)
    ensures
        may_show_lossy(*old(context), *value, *final(context), result),
        forall|t: Seq<char>| *value == #[trigger] js_text(t) ==> result is Ok && result->Ok_0@ == t,
{
    match value.to_string(context) {
        Ok(text) => Ok(text.to_std_string_lossy()),
        Err(error) => Err(error),
    }
}

/// `JsError` writes itself out as a message.
#[verifier::external_body]
pub(crate) fn message(error: &JsError) -> (result: String)
    ensures
        may_say(*error, result@),
{
    error.to_string()
}

/// `JsValue::undefined` is undefined, and not null. It is no object and no text, and not true.
#[verifier::external_body]
pub(crate) fn undefined() -> (result: JsValue)
    ensures
        js_is_undefined(result),
        !js_is_null(result),
        !js_is_object(result),
        js_text_in(result) is None,
        !js_truth(result),
{
    JsValue::undefined()
}

/// `JsString::from` and `JsValue::from` make a value of a text.
#[verifier::external_body]
pub(crate) fn text(content: &str) -> (result: JsValue)
    ensures
        result == js_text(content@),
{
    JsValue::from(JsString::from(content))
}

/// `JsValue::from` makes a value of an integer.
#[verifier::external_body]
pub(crate) fn integer(n: u32) -> (result: JsValue)
    ensures
        result == js_integer(n),
{
    JsValue::from(n)
}

/// `JsValue::null` is null, and not undefined. It is no object and no text, and not true.
#[verifier::external_body]
pub(crate) fn null() -> (result: JsValue)
    ensures
        js_is_null(result),
        !js_is_undefined(result),
        !js_is_object(result),
        js_text_in(result) is None,
        !js_truth(result),
{
    JsValue::null()
}

/// `JsValue::from` makes a value of an integer with a sign.
#[verifier::external_body]
pub(crate) fn signed(n: i32) -> (result: JsValue)
    ensures
        result == js_signed(n),
{
    JsValue::from(n)
}

/// `JsValue::from` makes a value of a flag.
#[verifier::external_body]
pub(crate) fn flag(is_set: bool) -> (result: JsValue)
    ensures
        result == js_flag(is_set),
{
    JsValue::from(is_set)
}

/// `JsArrayBuffer::from_byte_block` takes the bytes of a number, `JsDataView::get_float32` reads
/// them as a number of single precision, and `JsValue::from` makes a value of it. No script can
/// change what comes out. That none of them throws is not claimed.
#[verifier::external_body]
pub(crate) fn real_of(context: &mut Context, bits: u32) -> (result: Result<JsValue, JsError>)
    ensures
        may_make_real(*old(context), bits, *final(context), result),
        result is Ok ==> result->Ok_0 == js_real(bits),
{
    let block = AlignedVec::from_iter(0, bits.to_le_bytes());
    let buffer = JsArrayBuffer::from_byte_block(block, context)?;
    let view = JsDataView::from_js_array_buffer(buffer, None, None, context)?;
    view.get_float32(0, true, context).map(JsValue::from)
}

/// `JsArray::from_iter` makes an array of values.
#[verifier::external_body]
pub(crate) fn array(context: &mut Context, items: Vec<JsValue>) -> (result: JsValue)
    ensures
        may_make_array(*old(context), items@, *final(context), result),
        js_is_object(result),
{
    JsValue::from(JsArray::from_iter(items, context))
}

/// `JsObject::with_object_proto` makes an object without members of its own.
#[verifier::external_body]
pub(crate) fn object(context: &Context) -> (result: JsValue)
    ensures
        may_make_object(*context, result),
        js_is_object(result),
{
    JsValue::from(JsObject::with_object_proto(context.intrinsics()))
}

/// `JsValue::to_number` gives the number that a value stands for, which may run a script, and may
/// throw; here it is given by its bits. An integer stands for itself; what other values stand for is
/// not claimed.
#[verifier::external_body]
pub(crate) fn number(context: &mut Context, value: &JsValue) -> (result: Result<u64, JsError>)
    ensures
        may_count(*old(context), *value, *final(context), result),
        forall|n: u32|
            *value == #[trigger] js_integer(n) ==> result is Ok && Double::from_bits(
                result->Ok_0,
            ).exactly(n),
{
    value.to_number(context).map(|number| number.to_bits())
}

/// `JsValue::to_f32` gives the number that a value stands for in single precision, which may run a
/// script, and may throw; here it is given by its bits. An integer does not throw; which number it
/// is is not claimed.
#[verifier::external_body]
pub(crate) fn single(context: &mut Context, value: &JsValue) -> (result: Result<u32, JsError>)
    ensures
        may_count_single(*old(context), *value, *final(context), result),
        forall|n: u32| *value == #[trigger] js_integer(n) ==> result is Ok,
{
    value.to_f32(context).map(|number| number.to_bits())
}

/// `JsValue::to_boolean` says whether a value counts as true: a flag that does, a text that is not
/// empty, an integer that is not zero.
#[verifier::external_body]
pub(crate) fn truth(value: &JsValue) -> (result: bool)
    ensures
        result == js_truth(*value),
        forall|b: bool| *value == #[trigger] js_flag(b) ==> result == b,
        forall|t: Seq<char>| *value == #[trigger] js_text(t) ==> result == (t.len() > 0),
        forall|n: u32| *value == #[trigger] js_integer(n) ==> result == (n != 0),
{
    value.to_boolean()
}

/// `NativeFunction::from_copy_closure` and `FunctionObjectBuilder` make a function that scripts can
/// call but not construct with, with a name and a number of arguments. A call of it is answered by
/// [`bridge::answer`].
#[verifier::external_body]
pub(crate) fn function(context: &Context, native: Native, name: &str, length: usize) -> (result:
    JsValue)
    ensures
        may_make_function(*context, native, name@, length, result),
        js_is_object(result),
{
    let function = NativeFunction::from_copy_closure(
        move |_, args, context| bridge::answer(native, args, context),
    );
    let builder = FunctionObjectBuilder::new(context.realm(), function);
    let named = builder.name(JsString::from(name)).length(length).constructor(false);
    JsValue::from(named.build())
}

/// `JsObject::define_property_or_throw` gives an object a property that can be written and taken
/// away, and throws where it cannot; only objects have properties. The result says whether the
/// object has it now.
#[verifier::external_body]
pub(crate) fn define(
    context: &mut Context,
    object: &JsValue,
    name: &str,
    value: &JsValue,
    listed: bool,
) -> (result: bool)
    ensures
        may_define(*old(context), *object, name@, *value, listed, *final(context), result),
        result ==> js_is_object(*object),
{
    let property = PropertyDescriptor::builder().value(value.clone()).writable(true);
    let property = property.enumerable(listed).configurable(true);
    match object.as_object() {
        Some(object) => {
            object.define_property_or_throw(JsString::from(name), property, context).is_ok()
        },
        None => false,
    }
}

/// `Context::insert_data` keeps the host in the engine, where the functions that scripts call find
/// it.
#[verifier::external_body]
pub(crate) fn lend(context: &mut Context, seat: Seat)
    ensures
        may_lend(*old(context), seat@, *final(context)),
{
    context.insert_data(seat);
}

/// `Context::remove_data` takes the host out of the engine again, if it is there. That it is the
/// one that was put in cannot be said: scripts have worked with it meanwhile.
#[verifier::external_body]
pub(crate) fn fetch(context: &mut Context) -> (result: Option<Seat>)
    ensures
        may_fetch(*old(context), *final(context), host::seated(result)),
{
    match context.remove_data::<Seat>() {
        Some(seat) => Some(*seat),
        None => None,
    }
}

} // verus!
