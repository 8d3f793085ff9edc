//! The static target that is served without a recording: one thread, a canned
//! stack, canned locals.
use serde_json::Value;
use vstd::prelude::*;

use crate::json::{self, Json};

verus! {

/// The id of the only thread.
pub const MAIN_THREAD_ID: u64 = 1;

/// The body of the `threads` response.
pub open spec fn threads_body() -> Json {
    json::object_of(
        seq![
            (
                "threads"@,
                Json::List(
                    seq![
                        json::object_of(
                            seq![("id"@, Json::Integer(1)), ("name"@, Json::Text("main"@))],
                        ),
                    ],
                ),
            ),
        ],
    )
}

/// A frame of a stack.
pub open spec fn frame_body(id: int, name: Seq<char>, line: int, column: int) -> Json {
    json::object_of(
        seq![
            ("id"@, Json::Integer(id)),
            ("name"@, Json::Text(name)),
            ("line"@, Json::Integer(line)),
            ("column"@, Json::Integer(column)),
        ],
    )
}

/// The body of the `stackTrace` response.
pub open spec fn stack_body() -> Json {
    json::object_of(
        seq![
            (
                "stackFrames"@,
                Json::List(
                    seq![
                        frame_body(
                            1,
                            "main (stub target — recording/replay not yet wired)"@,
                            1,
                            1,
                        ),
                        frame_body(2, "_start (stub)"@, 0, 0),
                    ],
                ),
            ),
            ("totalFrames"@, Json::Integer(2)),
        ],
    )
}

/// The body of the `scopes` response with one scope.
pub open spec fn one_scope(name: Seq<char>, reference: int) -> Json {
    json::object_of(
        seq![
            (
                "scopes"@,
                Json::List(
                    seq![
                        json::object_of(
                            seq![
                                ("name"@, Json::Text(name)),
                                ("variablesReference"@, Json::Integer(reference)),
                                ("expensive"@, Json::Bool(false)),
                            ],
                        ),
                    ],
                ),
            ),
        ],
    )
}

/// A variable without a type, and nothing below it.
pub open spec fn variable_body(name: Seq<char>, value: Seq<char>) -> Json {
    json::object_of(
        seq![
            ("name"@, Json::Text(name)),
            ("value"@, Json::Text(value)),
            ("variablesReference"@, Json::Integer(0)),
        ],
    )
}

/// The body of the `variables` response.
pub open spec fn variables_body() -> Json {
    json::object_of(
        seq![
            (
                "variables"@,
                Json::List(
                    seq![
                        variable_body(
                            "mirrorscope"@,
                            "stub target — see issues #4/#6 for real state"@,
                        ),
                    ],
                ),
            ),
        ],
    )
}

/// An object with one field.
pub(crate) fn single(name: &str, value: Value) -> (r: Value)
    ensures
        json::json(r) == json::object_of(seq![(name@, json::json(value))]),
{
    let ghost v = json::json(value);
    let entries: Vec<(&str, Value)> = vec![(name, value)];
    assert(json::named(entries@) =~= seq![(name@, v)]);
    json::object(entries)
}

/// The object without fields.
pub(crate) fn nothing() -> (r: Value)
    ensures
        json::json(r) == json::empty_object(),
{
    let entries: Vec<(&str, Value)> = Vec::new();
    assert(json::named(entries@) =~= Seq::empty());
    json::object(entries)
}

/// A list of one item.
pub(crate) fn list_of_one(item: Value) -> (r: Value)
    ensures
        json::json(r) == Json::List(seq![json::json(item)]),
{
    let ghost i = json::json(item);
    let items: Vec<Value> = vec![item];
    assert(json::jsons(items@) =~= seq![i]);
    json::list(items)
}

/// The list without items.
pub(crate) fn empty_list() -> (r: Value)
    ensures
        json::json(r) == Json::List(Seq::empty()),
{
    let items: Vec<Value> = Vec::new();
    assert(json::jsons(items@) =~= Seq::empty());
    json::list(items)
}

/// The body of the `threads` response.
#[must_use]
pub fn threads() -> (r: Value)
    ensures
        json::json(r) == threads_body(),
{
    let entries: Vec<(&str, Value)> = vec![
        ("id", json::number(MAIN_THREAD_ID)),
        ("name", json::string("main")),
    ];
    assert(json::named(entries@) =~= seq![
        ("id"@, Json::Integer(1)),
        ("name"@, Json::Text("main"@)),
    ]);
    single("threads", list_of_one(json::object(entries)))
}

fn frame(id: u64, name: &str, line: u64, column: u64) -> (r: Value)
    ensures
        json::json(r) == frame_body(id as int, name@, line as int, column as int),
{
    let entries: Vec<(&str, Value)> = vec![
        ("id", json::number(id)),
        ("name", json::string(name)),
        ("line", json::number(line)),
        ("column", json::number(column)),
    ];
    assert(json::named(entries@) =~= seq![
        ("id"@, Json::Integer(id as int)),
        ("name"@, Json::Text(name@)),
        ("line"@, Json::Integer(line as int)),
        ("column"@, Json::Integer(column as int)),
    ]);
    json::object(entries)
}

/// The body of the `stackTrace` response: a canned stack of two frames.
#[must_use]
pub fn stack_trace() -> (r: Value)
    ensures
        json::json(r) == stack_body(),
{
    let first = frame(1, "main (stub target — recording/replay not yet wired)", 1, 1);
    let second = frame(2, "_start (stub)", 0, 0);
    let ghost (f, s) = (json::json(first), json::json(second));
    let frames: Vec<Value> = vec![first, second];
    assert(json::jsons(frames@) =~= seq![f, s]);
    let list = json::list(frames);
    let entries: Vec<(&str, Value)> = vec![
        ("stackFrames", list),
        ("totalFrames", json::number(2)),
    ];
    assert(json::named(entries@) =~= seq![
        ("stackFrames"@, Json::List(seq![f, s])),
        ("totalFrames"@, Json::Integer(2)),
    ]);
    json::object(entries)
}

/// The body of the `scopes` response with one scope.
pub(crate) fn scope(name: &str, reference: u64) -> (r: Value)
    ensures
        json::json(r) == one_scope(name@, reference as int),
{
    let entries: Vec<(&str, Value)> = vec![
        ("name", json::string(name)),
        ("variablesReference", json::number(reference)),
        ("expensive", json::truth(false)),
    ];
    assert(json::named(entries@) =~= seq![
        ("name"@, Json::Text(name@)),
        ("variablesReference"@, Json::Integer(reference as int)),
        ("expensive"@, Json::Bool(false)),
    ]);
    single("scopes", list_of_one(json::object(entries)))
}

/// The body of the `scopes` response for any frame.
#[must_use]
pub fn scopes() -> (r: Value)
    ensures
        json::json(r) == one_scope("Locals"@, 1),
{
    scope("Locals", 1)
}

/// A variable without a type, and nothing below it.
pub(crate) fn variable(name: &str, value: &str) -> (r: Value)
    ensures
        json::json(r) == variable_body(name@, value@),
{
    let entries: Vec<(&str, Value)> = vec![
        ("name", json::string(name)),
        ("value", json::string(value)),
        ("variablesReference", json::number(0)),
    ];
    assert(json::named(entries@) =~= seq![
        ("name"@, Json::Text(name@)),
        ("value"@, Json::Text(value@)),
        ("variablesReference"@, Json::Integer(0)),
    ]);
    json::object(entries)
}

/// The body of the `variables` response for the locals.
#[must_use]
pub fn variables() -> (r: Value)
    ensures
        json::json(r) == variables_body(),
{
    single(
        "variables",
        list_of_one(variable("mirrorscope", "stub target — see issues #4/#6 for real state")),
    )
}

} // verus!
