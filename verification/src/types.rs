use vstd::prelude::*;

verus! {

/// The wire tag table: the fixed mapping from value category to the single
/// leading character that announces it on the wire, plus the line terminator.
///
/// The verbatim-string, error, set and push tags are reserved for later
/// extensions; the encoder does not emit them.
pub struct RedisType;

impl RedisType {
    pub const BOOLEAN: char = '#';

    pub const INTEGER: char = ':';

    pub const BIG_NUMBER: char = '(';

    pub const DOUBLE: char = ',';

    pub const SIMPLE_STRING: char = '+';

    pub const BULK_STRING: char = '$';

    pub const VERBATIM_STRING: char = '=';

    pub const SIMPLE_ERROR: char = '-';

    pub const BULK_ERROR: char = '!';

    pub const NULL: char = '_';

    pub const ARRAY: char = '*';

    pub const MAP: char = '%';

    pub const SET: char = '~';

    pub const PUSH: char = '>';

    pub const CRLF: &'static str = "\r\n";
}

} // verus!
