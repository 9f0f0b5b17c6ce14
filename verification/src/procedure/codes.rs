//! The codes that cross the interface.
use vstd::prelude::*;

verus! {

/// What a call answers.
#[derive(Clone, Copy, Debug, PartialEq, Eq, Structural)]
pub enum MgpError {
    NoError,
    UnknownError,
    UnableToAllocate,
    InsufficientBuffer,
    OutOfRange,
    LogicError,
    DeletedObject,
    InvalidArgument,
    KeyAlreadyExists,
    ImmutableObject,
    ValueConversion,
    SerializationError,
    AuthorizationError,
    NotYetImplemented,
}

/// The number of an answer in `mg_procedure.h`.
pub open spec fn error_code(e: MgpError) -> i32 {
    match e {
        MgpError::NoError => 0,
        MgpError::UnknownError => 1,
        MgpError::UnableToAllocate => 2,
        MgpError::InsufficientBuffer => 3,
        MgpError::OutOfRange => 4,
        MgpError::LogicError => 5,
        MgpError::DeletedObject => 6,
        MgpError::InvalidArgument => 7,
        MgpError::KeyAlreadyExists => 8,
        MgpError::ImmutableObject => 9,
        MgpError::ValueConversion => 10,
        MgpError::SerializationError => 11,
        MgpError::AuthorizationError => 12,
        MgpError::NotYetImplemented => 13,
    }
}

impl MgpError {
    /// The number of the answer in `mg_procedure.h`.
    pub fn code(self) -> (r: i32)
        ensures
            r == error_code(self),
    {
        match self {
            MgpError::NoError => 0,
            MgpError::UnknownError => 1,
            MgpError::UnableToAllocate => 2,
            MgpError::InsufficientBuffer => 3,
            MgpError::OutOfRange => 4,
            MgpError::LogicError => 5,
            MgpError::DeletedObject => 6,
            MgpError::InvalidArgument => 7,
            MgpError::KeyAlreadyExists => 8,
            MgpError::ImmutableObject => 9,
            MgpError::ValueConversion => 10,
            MgpError::SerializationError => 11,
            MgpError::AuthorizationError => 12,
            MgpError::NotYetImplemented => 13,
        }
    }
}

/// The name of an answer.
pub open spec fn error_name(e: MgpError) -> Seq<char> {
    match e {
        MgpError::NoError => "NoError"@,
        MgpError::UnknownError => "UnknownError"@,
        MgpError::UnableToAllocate => "UnableToAllocate"@,
        MgpError::InsufficientBuffer => "InsufficientBuffer"@,
        MgpError::OutOfRange => "OutOfRange"@,
        MgpError::LogicError => "LogicError"@,
        MgpError::DeletedObject => "DeletedObject"@,
        MgpError::InvalidArgument => "InvalidArgument"@,
        MgpError::KeyAlreadyExists => "KeyAlreadyExists"@,
        MgpError::ImmutableObject => "ImmutableObject"@,
        MgpError::ValueConversion => "ValueConversion"@,
        MgpError::SerializationError => "SerializationError"@,
        MgpError::AuthorizationError => "AuthorizationError"@,
        MgpError::NotYetImplemented => "NotYetImplemented"@,
    }
}

impl MgpError {
    /// The name of the answer.
    pub fn name(self) -> (r: &'static str)
        ensures
            r@ == error_name(self),
    {
        match self {
            MgpError::NoError => "NoError",
            MgpError::UnknownError => "UnknownError",
            MgpError::UnableToAllocate => "UnableToAllocate",
            MgpError::InsufficientBuffer => "InsufficientBuffer",
            MgpError::OutOfRange => "OutOfRange",
            MgpError::LogicError => "LogicError",
            MgpError::DeletedObject => "DeletedObject",
            MgpError::InvalidArgument => "InvalidArgument",
            MgpError::KeyAlreadyExists => "KeyAlreadyExists",
            MgpError::ImmutableObject => "ImmutableObject",
            MgpError::ValueConversion => "ValueConversion",
            MgpError::SerializationError => "SerializationError",
            MgpError::AuthorizationError => "AuthorizationError",
            MgpError::NotYetImplemented => "NotYetImplemented",
        }
    }
}

/// Different answers have different numbers.
pub proof fn error_codes_are_distinct(a: MgpError, b: MgpError)
    requires
        error_code(a) == error_code(b),
    ensures
        a == b,
{
}

/// The type of a value.
#[derive(Clone, Copy, Debug, PartialEq, Eq, Structural)]
pub enum MgpValueType {
    Null,
    Bool,
    Int,
    Double,
    String,
    List,
    Mapping,
    Vertex,
    Edge,
    Path,
    Date,
    LocalTime,
    LocalDateTime,
    Duration,
    ZonedDateTime,
    Point2D,
    Point3D,
    Enum,
}

/// The kind of a type that a procedure declares for an argument or a result.
#[derive(Clone, Copy, Debug, PartialEq, Eq, Structural)]
pub enum MgpTypeTag {
    Any,
    Bool,
    Int,
    Float,
    Number,
    String,
    Mapping,
    Node,
    Relationship,
    Path,
    Date,
    LocalTime,
    LocalDateTime,
    Duration,
    ZonedDateTime,
    Enum,
    List,
    Nullable,
    Point2D,
    Point3D,
}

/// How urgent a message to the log is.
#[derive(Clone, Copy, Debug, PartialEq, Eq, Structural)]
pub enum MgpLogLevel {
    Trace,
    Debug,
    Info,
    Warn,
    Error,
    Critical,
}

/// Where the messages of a stream come from.
#[derive(Clone, Copy, Debug, PartialEq, Eq, Structural)]
pub enum MgpSourceType {
    Kafka,
    Pulsar,
}

/// Where the messages of a stream come from, as a message tells it.
#[derive(Clone, Copy, Debug, PartialEq, Eq, Structural)]
pub enum mgp_source_type {
    Kafka,
    Pulsar,
}

/// What a text search looks at.
#[derive(Clone, Copy, Debug, PartialEq, Eq, Structural)]
pub enum TextSearchMode {
    SpecifiedProperties,
    Regex,
    AllProperties,
}

/// Event type that caused a trigger to fire.
#[derive(Clone, Copy, Debug, PartialEq, Eq, Structural)]
pub enum MgpTriggerEventType {
    CreateVertex,
    CreateEdge,
    DeleteVertex,
    DeleteEdge,
    UpdateVertex,
    UpdateEdge,
    SetPropertyVertex,
    SetPropertyEdge,
    RemovePropertyVertex,
    RemovePropertyEdge,
}

/// The word for the level of a message to the log.
pub open spec fn level_word(level: i32) -> Seq<char> {
    if level == 0 {
        "TRACE"@
    } else if level == 1 {
        "DEBUG"@
    } else if level == 2 {
        "INFO"@
    } else if level == 3 {
        "WARN"@
    } else if level == 4 {
        "ERROR"@
    } else if level == 5 {
        "CRITICAL"@
    } else {
        "LOG"@
    }
}

/// The line that a message puts into the log: the word for its level in brackets, and its text.
/// There is none without a message.
pub fn mgp_log(level: i32, msg: Option<&str>) -> (r: Result<String, MgpError>)
    ensures
        msg is None ==> r == Err::<String, MgpError>(MgpError::InvalidArgument),
        msg matches Some(m) ==> r is Ok && r->Ok_0@ == "["@ + level_word(level) + "] "@ + m@,
{
    match msg {
        None => Err(MgpError::InvalidArgument),
        Some(m) => {
            let word = if level == 0 {
                "TRACE"
            } else if level == 1 {
                "DEBUG"
            } else if level == 2 {
                "INFO"
            } else if level == 3 {
                "WARN"
            } else if level == 4 {
                "ERROR"
            } else if level == 5 {
                "CRITICAL"
            } else {
                "LOG"
            };
            let mut line = "[".to_string();
            line.append(word);
            line.append("] ");
            line.append(m);
            Ok(line)
        },
    }
}

/// Whether the enterprise features are licensed: they are not.
pub fn mgp_is_enterprise_valid() -> (r: i32)
    ensures
        r == 0,
{
    0
}

} // verus!
