//! Commonly used strings, which take no space in the heap.

use vstd::prelude::*;

use crate::js_str::{self, JsStr};
use crate::js_string::JsString;

verus! {

/// The strings that are known in advance. A string equal to one of them is represented by its
/// position in this list.
pub struct StaticJsStrings;

/// The text of the static string at `index`, where `index < StaticJsStrings::COUNT`.
pub open spec fn static_text(index: usize) -> Seq<char> {
    match index {
        0 => ""@,
        1 => ","@,
        2 => ":"@,
        3 => "name"@,
        4 => "length"@,
        5 => "arguments"@,
        6 => "prototype"@,
        7 => "constructor"@,
        8 => "return"@,
        9 => "throw"@,
        10 => "global"@,
        11 => "globalThis"@,
        12 => "null"@,
        13 => "undefined"@,
        14 => "number"@,
        15 => "string"@,
        16 => "symbol"@,
        17 => "bigint"@,
        18 => "object"@,
        19 => "function"@,
        20 => "value"@,
        21 => "get"@,
        22 => "set"@,
        23 => "writable"@,
        24 => "enumerable"@,
        25 => "configurable"@,
        26 => "Object"@,
        27 => "assign"@,
        28 => "create"@,
        29 => "toString"@,
        30 => "valueOf"@,
        31 => "is"@,
        32 => "seal"@,
        33 => "isSealed"@,
        34 => "freeze"@,
        35 => "isFrozen"@,
        36 => "Function"@,
        37 => "apply"@,
        38 => "bind"@,
        39 => "call"@,
        40 => "Array"@,
        41 => "push"@,
        42 => "pop"@,
        43 => "concat"@,
        44 => "join"@,
        45 => "slice"@,
        46 => "String"@,
        47 => "indexOf"@,
        48 => "trim"@,
        49 => "Number"@,
        50 => "Boolean"@,
        51 => "true"@,
        52 => "false"@,
        53 => "NaN"@,
        54 => "Infinity"@,
        55 => "Symbol"@,
        56 => "Symbol.iterator"@,
        57 => "Error"@,
        58 => "message"@,
        59 => "stack"@,
        _ => seq![],
    }
}

/// The code units of the static string at `index`.
pub open spec fn static_units(index: usize) -> Seq<u16> {
    static_text(index).map_values(|c: char| c as u16)
}

/// Whether some static string has these code units.
pub open spec fn is_static_units(units: Seq<u16>) -> bool {
    exists|index: usize| index < StaticJsStrings::COUNT && #[trigger] static_units(index) == units
}

impl StaticJsStrings {
    /// The number of static strings.
    pub const COUNT: usize = 60;

    /// The position of the empty string.
    pub const EMPTY: usize = 0;

    /// The text of the static string at `index`, or [`None`] past the last one.
    pub fn text(index: usize) -> (text: Option<&'static str>)
        ensures
            text is Some <==> index < Self::COUNT,
            text matches Some(found) ==> found@ == static_text(index),
    {
        Some(match index {
            0 => "",
            1 => ",",
            2 => ":",
            3 => "name",
            4 => "length",
            5 => "arguments",
            6 => "prototype",
            7 => "constructor",
            8 => "return",
            9 => "throw",
            10 => "global",
            11 => "globalThis",
            12 => "null",
            13 => "undefined",
            14 => "number",
            15 => "string",
            16 => "symbol",
            17 => "bigint",
            18 => "object",
            19 => "function",
            20 => "value",
            21 => "get",
            22 => "set",
            23 => "writable",
            24 => "enumerable",
            25 => "configurable",
            26 => "Object",
            27 => "assign",
            28 => "create",
            29 => "toString",
            30 => "valueOf",
            31 => "is",
            32 => "seal",
            33 => "isSealed",
            34 => "freeze",
            35 => "isFrozen",
            36 => "Function",
            37 => "apply",
            38 => "bind",
            39 => "call",
            40 => "Array",
            41 => "push",
            42 => "pop",
            43 => "concat",
            44 => "join",
            45 => "slice",
            46 => "String",
            47 => "indexOf",
            48 => "trim",
            49 => "Number",
            50 => "Boolean",
            51 => "true",
            52 => "false",
            53 => "NaN",
            54 => "Infinity",
            55 => "Symbol",
            56 => "Symbol.iterator",
            57 => "Error",
            58 => "message",
            59 => "stack",
            _ => return None,
        })
    }

    /// The static string at `index`, or [`None`] past the last one.
    pub fn get(index: usize) -> (string: Option<JsStr<'static>>)
        ensures
            string is Some <==> index < Self::COUNT,
            string matches Some(found) ==> found@ == static_units(index)
                && found.in_latin1(),
    {
        match Self::text(index) {
            Some(text) => {
                proof {
                    lemma_static_text_is_ascii(index);
                    vstd::string::is_ascii_spec_bytes(text);
                }
                let bytes = text.as_bytes();
                assert(js_str::latin1_units(bytes@) =~= static_units(index));
                Some(JsStr::latin1(bytes))
            },
            None => None,
        }
    }

    /// The `JsString` with the code units of `string`, or [`None`] if no static string has them.
    pub fn get_string(string: &JsStr<'_>) -> (found: Option<JsString>)
        ensures
            found is Some <==> is_static_units(string@),
            found matches Some(interned) ==> interned@ == string@ && interned.interned()
                && interned.in_latin1(),
    {
        for index in 0..Self::COUNT
            invariant
                forall|i: usize| i < index ==> #[trigger] static_units(i) != string@,
        {
            if let Some(candidate) = Self::get(index) {
                if candidate.same_units(*string) {
                    assert(static_units(index) == string@);
                    return Some(JsString::from_static(index));
                }
            }
        }
        None
    }
}

/// Every static string is ASCII.
pub proof fn lemma_static_text_is_ascii(index: usize)
    requires
        index < StaticJsStrings::COUNT,
    ensures
        vstd::utf8::is_ascii_chars(static_text(index)),
{
    reveal_strlit("");
    reveal_strlit(",");
    reveal_strlit(":");
    reveal_strlit("name");
    reveal_strlit("length");
    reveal_strlit("arguments");
    reveal_strlit("prototype");
    reveal_strlit("constructor");
    reveal_strlit("return");
    reveal_strlit("throw");
    reveal_strlit("global");
    reveal_strlit("globalThis");
    reveal_strlit("null");
    reveal_strlit("undefined");
    reveal_strlit("number");
    reveal_strlit("string");
    reveal_strlit("symbol");
    reveal_strlit("bigint");
    reveal_strlit("object");
    reveal_strlit("function");
    reveal_strlit("value");
    reveal_strlit("get");
    reveal_strlit("set");
    reveal_strlit("writable");
    reveal_strlit("enumerable");
    reveal_strlit("configurable");
    reveal_strlit("Object");
    reveal_strlit("assign");
    reveal_strlit("create");
    reveal_strlit("toString");
    reveal_strlit("valueOf");
    reveal_strlit("is");
    reveal_strlit("seal");
    reveal_strlit("isSealed");
    reveal_strlit("freeze");
    reveal_strlit("isFrozen");
    reveal_strlit("Function");
    reveal_strlit("apply");
    reveal_strlit("bind");
    reveal_strlit("call");
    reveal_strlit("Array");
    reveal_strlit("push");
    reveal_strlit("pop");
    reveal_strlit("concat");
    reveal_strlit("join");
    reveal_strlit("slice");
    reveal_strlit("String");
    reveal_strlit("indexOf");
    reveal_strlit("trim");
    reveal_strlit("Number");
    reveal_strlit("Boolean");
    reveal_strlit("true");
    reveal_strlit("false");
    reveal_strlit("NaN");
    reveal_strlit("Infinity");
    reveal_strlit("Symbol");
    reveal_strlit("Symbol.iterator");
    reveal_strlit("Error");
    reveal_strlit("message");
    reveal_strlit("stack");
}

/// The static string at the position of the empty string is empty.
pub proof fn lemma_empty_is_static()
    ensures
        static_units(StaticJsStrings::EMPTY) == Seq::<u16>::empty(),
        is_static_units(Seq::empty()),
{
    reveal_strlit("");
    assert(static_units(StaticJsStrings::EMPTY) =~= Seq::<u16>::empty());
}

} // verus!
