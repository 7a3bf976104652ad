//! The importable modules: their names, the words each declares with a
//! one-line description, which of those words keep the interpreter's
//! modes, and which are stable.
use crate::text::{first_index_of, spec_to_uppercase, str_equal, str_find_char, to_uppercase};
use vstd::prelude::*;

verus! {

/// One word a module declares.
#[derive(Clone, Copy, Debug)]
pub struct ModuleWordEntry {
    pub short_name: &'static str,
    pub description: &'static str,
    /// Running the word leaves the consumption and target modes as they
    /// were.
    pub preserves_modes: bool,
    /// The word is stable rather than experimental.
    pub stable: bool,
}

/// One catalog entry: a word or a sample word of a module.
#[derive(Clone, Copy, Debug)]
pub struct CatalogWord {
    pub short_name: &'static str,
    pub description: &'static str,
    pub is_sample: bool,
}

/// The importable module names, in declaration order.
pub open spec fn module_names() -> Seq<&'static str> {
    seq!["MUSIC", "JSON", "IO", "TIME", "CRYPTO", "ALGO", "MATH", "SERIAL"]
}

/// The lower-case category of each module.
pub open spec fn module_categories() -> Seq<&'static str> {
    seq!["music", "json", "io", "time", "crypto", "algo", "math", "serial"]
}

/// The words of module `m` (in the order of [`module_names`]), in
/// declaration order.
pub open spec fn module_word_table(m: int) -> Seq<ModuleWordEntry> {
    if m == 0 {
        seq![
            ModuleWordEntry { short_name: "SEQ", description: "Set sequential playback mode", preserves_modes: true, stable: true },
            ModuleWordEntry { short_name: "SIM", description: "Set simultaneous playback mode", preserves_modes: true, stable: true },
            ModuleWordEntry { short_name: "SLOT", description: "Set slot duration in seconds", preserves_modes: false, stable: true },
            ModuleWordEntry { short_name: "GAIN", description: "Set volume level (0.0-1.0)", preserves_modes: false, stable: true },
            ModuleWordEntry { short_name: "GAIN-RESET", description: "Reset volume to default (1.0)", preserves_modes: false, stable: true },
            ModuleWordEntry { short_name: "PAN", description: "Set stereo position (-1.0 left to 1.0 right)", preserves_modes: false, stable: true },
            ModuleWordEntry { short_name: "PAN-RESET", description: "Reset pan to center (0.0)", preserves_modes: false, stable: true },
            ModuleWordEntry { short_name: "FX-RESET", description: "Reset all audio effects to defaults", preserves_modes: false, stable: true },
            ModuleWordEntry { short_name: "PLAY", description: "Play audio", preserves_modes: false, stable: true },
            ModuleWordEntry { short_name: "SEQ-GROUP", description: "Build an explicit sequential music group from a vector", preserves_modes: false, stable: false },
            ModuleWordEntry { short_name: "SIM-GROUP", description: "Build an explicit simultaneous music group from a vector", preserves_modes: false, stable: false },
            ModuleWordEntry { short_name: "CHORD", description: "Build an explicit chord group (simultaneous) from a vector", preserves_modes: false, stable: false },
            ModuleWordEntry { short_name: "HZ", description: "Build a music.pitch from a frequency in Hz (exact rational)", preserves_modes: false, stable: false },
            ModuleWordEntry { short_name: "DUR", description: "Build a music.duration from a number of seconds", preserves_modes: false, stable: false },
            ModuleWordEntry { short_name: "NOTE", description: "Combine a music.pitch and a music.duration into a music.note", preserves_modes: false, stable: false },
            ModuleWordEntry { short_name: "REST", description: "Build a music.rest from a music.duration", preserves_modes: false, stable: false },
            ModuleWordEntry { short_name: "EDO", description: "Build an equal-division-of-the-octave music.tuning", preserves_modes: false, stable: false },
            ModuleWordEntry { short_name: "EDR", description: "Build an equal-division-of-a-ratio music.tuning (non-octave)", preserves_modes: false, stable: false },
            ModuleWordEntry { short_name: "STEP", description: "Resolve a step within a music.tuning into a music.pitch", preserves_modes: false, stable: false },
            ModuleWordEntry { short_name: "VOICE", description: "Build a music group with the role of a single melodic voice", preserves_modes: false, stable: false },
            ModuleWordEntry { short_name: "TRACK", description: "Build a music group with the role of an instrument track", preserves_modes: false, stable: false },
            ModuleWordEntry { short_name: "MEASURE", description: "Build a music group with the role of a measure (bar)", preserves_modes: false, stable: false },
            ModuleWordEntry { short_name: "PHRASE", description: "Build a music group with the role of a phrase", preserves_modes: false, stable: false },
            ModuleWordEntry { short_name: "WITH-TUNING", description: "Bind a tuning over a body so bare integers become tuning steps", preserves_modes: false, stable: false },
            ModuleWordEntry { short_name: "EXPLAIN", description: "Explain how MUSIC@PLAY would interpret a value", preserves_modes: false, stable: false },
            ModuleWordEntry { short_name: "ADSR", description: "Set ADSR envelope", preserves_modes: false, stable: true },
            ModuleWordEntry { short_name: "SINE", description: "Set sine waveform", preserves_modes: false, stable: true },
            ModuleWordEntry { short_name: "SQUARE", description: "Set square waveform", preserves_modes: false, stable: true },
            ModuleWordEntry { short_name: "SAW", description: "Set sawtooth waveform", preserves_modes: false, stable: true },
            ModuleWordEntry { short_name: "TRI", description: "Set triangle waveform", preserves_modes: false, stable: true },
        ]
    } else if m == 1 {
        seq![
            ModuleWordEntry { short_name: "PARSE", description: "Parse JSON string to Ajisai value", preserves_modes: false, stable: true },
            ModuleWordEntry { short_name: "STRINGIFY", description: "Convert Ajisai value to JSON string", preserves_modes: false, stable: true },
            ModuleWordEntry { short_name: "GET", description: "Get value by key from JSON object", preserves_modes: false, stable: true },
            ModuleWordEntry { short_name: "KEYS", description: "Get all keys from JSON object", preserves_modes: false, stable: true },
            ModuleWordEntry { short_name: "SET", description: "Set key-value in JSON object", preserves_modes: false, stable: true },
            ModuleWordEntry { short_name: "HAS", description: "True if a JSON object contains the given key", preserves_modes: false, stable: true },
            ModuleWordEntry { short_name: "VALUES", description: "Get all values from a JSON object", preserves_modes: false, stable: true },
            ModuleWordEntry { short_name: "MERGE", description: "Merge two JSON objects; right-hand keys win on conflict", preserves_modes: false, stable: true },
            ModuleWordEntry { short_name: "DELETE", description: "Remove a key from a JSON object", preserves_modes: false, stable: true },
            ModuleWordEntry { short_name: "EXPORT", description: "Export stack top as JSON file download", preserves_modes: false, stable: true },
        ]
    } else if m == 2 {
        seq![
            ModuleWordEntry { short_name: "INPUT", description: "Read text from input buffer", preserves_modes: false, stable: true },
            ModuleWordEntry { short_name: "OUTPUT", description: "Write value to output buffer", preserves_modes: false, stable: true },
        ]
    } else if m == 3 {
        seq![
            ModuleWordEntry { short_name: "NOW", description: "Get current Unix timestamp", preserves_modes: false, stable: true },
            ModuleWordEntry { short_name: "DATETIME", description: "Render an instant as civil [Y M D h m s] at a UTC offset (hours)", preserves_modes: false, stable: true },
            ModuleWordEntry { short_name: "TIMESTAMP", description: "Resolve a civil datetime to an instant at a UTC offset (hours)", preserves_modes: false, stable: true },
            ModuleWordEntry { short_name: "DATE", description: "Extract the [Y M D] date from a datetime", preserves_modes: false, stable: true },
            ModuleWordEntry { short_name: "TIME", description: "Extract the [h m s] time-of-day from a datetime", preserves_modes: false, stable: true },
            ModuleWordEntry { short_name: "YEAR", description: "Year field of a date or datetime", preserves_modes: false, stable: true },
            ModuleWordEntry { short_name: "MONTH", description: "Month field of a date or datetime", preserves_modes: false, stable: true },
            ModuleWordEntry { short_name: "DAY", description: "Day field of a date or datetime", preserves_modes: false, stable: true },
            ModuleWordEntry { short_name: "HOUR", description: "Hour field of a time or datetime", preserves_modes: false, stable: true },
            ModuleWordEntry { short_name: "MINUTE", description: "Minute field of a time or datetime", preserves_modes: false, stable: true },
            ModuleWordEntry { short_name: "SECOND", description: "Second field of a time or datetime", preserves_modes: false, stable: true },
            ModuleWordEntry { short_name: "WEEKDAY", description: "ISO weekday of a date or datetime (Monday=1 .. Sunday=7)", preserves_modes: false, stable: true },
            ModuleWordEntry { short_name: "ADD-DAYS", description: "Shift a date or datetime by N whole days", preserves_modes: false, stable: true },
            ModuleWordEntry { short_name: "DIFF-DAYS", description: "Whole-day difference a-b between two dates/datetimes", preserves_modes: false, stable: true },
            ModuleWordEntry { short_name: "FORMAT", description: "ISO-8601 text for a date (YYYY-MM-DD) or datetime (YYYY-MM-DDThh:mm:ss)", preserves_modes: false, stable: true },
            ModuleWordEntry { short_name: "PARSE-ISO", description: "Parse an ISO-8601 civil string into a datetime; Bubble/NIL if invalid", preserves_modes: false, stable: true },
            ModuleWordEntry { short_name: "ADD-MONTHS", description: "Add N months to a date/datetime, clamping to the month end", preserves_modes: false, stable: true },
            ModuleWordEntry { short_name: "ADD-YEARS", description: "Add N years to a date/datetime, clamping Feb 29 in non-leap years", preserves_modes: false, stable: true },
        ]
    } else if m == 4 {
        seq![
            ModuleWordEntry { short_name: "CSPRNG", description: "Generate cryptographically secure random numbers", preserves_modes: false, stable: true },
            ModuleWordEntry { short_name: "HASH", description: "Compute hash value", preserves_modes: false, stable: true },
        ]
    } else if m == 5 {
        seq![
            ModuleWordEntry { short_name: "SORT", description: "Sort vector elements in ascending order", preserves_modes: false, stable: true },
            ModuleWordEntry { short_name: "UNIQUE", description: "Remove duplicate elements, preserving first-occurrence order", preserves_modes: false, stable: true },
            ModuleWordEntry { short_name: "CONTAINS", description: "True if a vector contains an element equal to the given value", preserves_modes: false, stable: true },
            ModuleWordEntry { short_name: "INDEX-OF", description: "Index of the first element equal to the value; Bubble/NIL if absent", preserves_modes: false, stable: true },
        ]
    } else if m == 6 {
        seq![
            ModuleWordEntry { short_name: "SQRT", description: "Square root. Exact rational roots stay exact; otherwise returns sound interval.", preserves_modes: false, stable: true },
            ModuleWordEntry { short_name: "SQRT-EPS", description: "Square root with explicit interval width bound eps.", preserves_modes: false, stable: true },
            ModuleWordEntry { short_name: "INTERVAL", description: "Create interval [lo, hi].", preserves_modes: false, stable: true },
            ModuleWordEntry { short_name: "LOWER", description: "Lower endpoint of number/interval.", preserves_modes: false, stable: true },
            ModuleWordEntry { short_name: "UPPER", description: "Upper endpoint of number/interval.", preserves_modes: false, stable: true },
            ModuleWordEntry { short_name: "WIDTH", description: "Interval width hi-lo.", preserves_modes: false, stable: true },
            ModuleWordEntry { short_name: "IS-EXACT", description: "True for exact number or degenerate interval.", preserves_modes: false, stable: true },
            ModuleWordEntry { short_name: "ABS", description: "Absolute value of a number.", preserves_modes: false, stable: true },
            ModuleWordEntry { short_name: "NEG", description: "Negate a number.", preserves_modes: false, stable: true },
            ModuleWordEntry { short_name: "SIGN", description: "Sign of a number: -1, 0, or 1.", preserves_modes: false, stable: true },
            ModuleWordEntry { short_name: "MIN", description: "Smaller of two numbers.", preserves_modes: false, stable: true },
            ModuleWordEntry { short_name: "MAX", description: "Larger of two numbers.", preserves_modes: false, stable: true },
            ModuleWordEntry { short_name: "POW", description: "Integer-exponent exact power: base exp -- base^exp.", preserves_modes: false, stable: true },
            ModuleWordEntry { short_name: "GCD", description: "Greatest common divisor of two integers.", preserves_modes: false, stable: true },
            ModuleWordEntry { short_name: "LCM", description: "Least common multiple of two integers.", preserves_modes: false, stable: true },
        ]
    } else {
        seq![
            ModuleWordEntry { short_name: "LIST-PORTS", description: "Ask the host to enumerate available serial ports", preserves_modes: false, stable: false },
            ModuleWordEntry { short_name: "OPEN", description: "Open a serial port by id; leaves the port-id handle on the stack", preserves_modes: false, stable: false },
            ModuleWordEntry { short_name: "CONFIGURE", description: "Set the baud rate of an open serial port", preserves_modes: false, stable: false },
            ModuleWordEntry { short_name: "WRITE", description: "Write a byte vector to an open serial port", preserves_modes: false, stable: false },
            ModuleWordEntry { short_name: "READ", description: "Drain received bytes from an open serial port; Bubble/NIL when none", preserves_modes: false, stable: false },
            ModuleWordEntry { short_name: "FLUSH", description: "Flush the outgoing buffer of an open serial port", preserves_modes: false, stable: false },
            ModuleWordEntry { short_name: "CLOSE", description: "Close an open serial port", preserves_modes: false, stable: false },
        ]
    }
}

/// The words of module `m`.
pub fn module_word_entries(m: usize) -> (r: Vec<ModuleWordEntry>)
    requires
        m < 8,
    ensures
        r@ == module_word_table(m as int),
{
    if m == 0 {
        vec![
            ModuleWordEntry { short_name: "SEQ", description: "Set sequential playback mode", preserves_modes: true, stable: true },
            ModuleWordEntry { short_name: "SIM", description: "Set simultaneous playback mode", preserves_modes: true, stable: true },
            ModuleWordEntry { short_name: "SLOT", description: "Set slot duration in seconds", preserves_modes: false, stable: true },
            ModuleWordEntry { short_name: "GAIN", description: "Set volume level (0.0-1.0)", preserves_modes: false, stable: true },
            ModuleWordEntry { short_name: "GAIN-RESET", description: "Reset volume to default (1.0)", preserves_modes: false, stable: true },
            ModuleWordEntry { short_name: "PAN", description: "Set stereo position (-1.0 left to 1.0 right)", preserves_modes: false, stable: true },
            ModuleWordEntry { short_name: "PAN-RESET", description: "Reset pan to center (0.0)", preserves_modes: false, stable: true },
            ModuleWordEntry { short_name: "FX-RESET", description: "Reset all audio effects to defaults", preserves_modes: false, stable: true },
            ModuleWordEntry { short_name: "PLAY", description: "Play audio", preserves_modes: false, stable: true },
            ModuleWordEntry { short_name: "SEQ-GROUP", description: "Build an explicit sequential music group from a vector", preserves_modes: false, stable: false },
            ModuleWordEntry { short_name: "SIM-GROUP", description: "Build an explicit simultaneous music group from a vector", preserves_modes: false, stable: false },
            ModuleWordEntry { short_name: "CHORD", description: "Build an explicit chord group (simultaneous) from a vector", preserves_modes: false, stable: false },
            ModuleWordEntry { short_name: "HZ", description: "Build a music.pitch from a frequency in Hz (exact rational)", preserves_modes: false, stable: false },
            ModuleWordEntry { short_name: "DUR", description: "Build a music.duration from a number of seconds", preserves_modes: false, stable: false },
            ModuleWordEntry { short_name: "NOTE", description: "Combine a music.pitch and a music.duration into a music.note", preserves_modes: false, stable: false },
            ModuleWordEntry { short_name: "REST", description: "Build a music.rest from a music.duration", preserves_modes: false, stable: false },
            ModuleWordEntry { short_name: "EDO", description: "Build an equal-division-of-the-octave music.tuning", preserves_modes: false, stable: false },
            ModuleWordEntry { short_name: "EDR", description: "Build an equal-division-of-a-ratio music.tuning (non-octave)", preserves_modes: false, stable: false },
            ModuleWordEntry { short_name: "STEP", description: "Resolve a step within a music.tuning into a music.pitch", preserves_modes: false, stable: false },
            ModuleWordEntry { short_name: "VOICE", description: "Build a music group with the role of a single melodic voice", preserves_modes: false, stable: false },
            ModuleWordEntry { short_name: "TRACK", description: "Build a music group with the role of an instrument track", preserves_modes: false, stable: false },
            ModuleWordEntry { short_name: "MEASURE", description: "Build a music group with the role of a measure (bar)", preserves_modes: false, stable: false },
            ModuleWordEntry { short_name: "PHRASE", description: "Build a music group with the role of a phrase", preserves_modes: false, stable: false },
            ModuleWordEntry { short_name: "WITH-TUNING", description: "Bind a tuning over a body so bare integers become tuning steps", preserves_modes: false, stable: false },
            ModuleWordEntry { short_name: "EXPLAIN", description: "Explain how MUSIC@PLAY would interpret a value", preserves_modes: false, stable: false },
            ModuleWordEntry { short_name: "ADSR", description: "Set ADSR envelope", preserves_modes: false, stable: true },
            ModuleWordEntry { short_name: "SINE", description: "Set sine waveform", preserves_modes: false, stable: true },
            ModuleWordEntry { short_name: "SQUARE", description: "Set square waveform", preserves_modes: false, stable: true },
            ModuleWordEntry { short_name: "SAW", description: "Set sawtooth waveform", preserves_modes: false, stable: true },
            ModuleWordEntry { short_name: "TRI", description: "Set triangle waveform", preserves_modes: false, stable: true },
        ]
    } else if m == 1 {
        vec![
            ModuleWordEntry { short_name: "PARSE", description: "Parse JSON string to Ajisai value", preserves_modes: false, stable: true },
            ModuleWordEntry { short_name: "STRINGIFY", description: "Convert Ajisai value to JSON string", preserves_modes: false, stable: true },
            ModuleWordEntry { short_name: "GET", description: "Get value by key from JSON object", preserves_modes: false, stable: true },
            ModuleWordEntry { short_name: "KEYS", description: "Get all keys from JSON object", preserves_modes: false, stable: true },
            ModuleWordEntry { short_name: "SET", description: "Set key-value in JSON object", preserves_modes: false, stable: true },
            ModuleWordEntry { short_name: "HAS", description: "True if a JSON object contains the given key", preserves_modes: false, stable: true },
            ModuleWordEntry { short_name: "VALUES", description: "Get all values from a JSON object", preserves_modes: false, stable: true },
            ModuleWordEntry { short_name: "MERGE", description: "Merge two JSON objects; right-hand keys win on conflict", preserves_modes: false, stable: true },
            ModuleWordEntry { short_name: "DELETE", description: "Remove a key from a JSON object", preserves_modes: false, stable: true },
            ModuleWordEntry { short_name: "EXPORT", description: "Export stack top as JSON file download", preserves_modes: false, stable: true },
        ]
    } else if m == 2 {
        vec![
            ModuleWordEntry { short_name: "INPUT", description: "Read text from input buffer", preserves_modes: false, stable: true },
            ModuleWordEntry { short_name: "OUTPUT", description: "Write value to output buffer", preserves_modes: false, stable: true },
        ]
    } else if m == 3 {
        vec![
            ModuleWordEntry { short_name: "NOW", description: "Get current Unix timestamp", preserves_modes: false, stable: true },
            ModuleWordEntry { short_name: "DATETIME", description: "Render an instant as civil [Y M D h m s] at a UTC offset (hours)", preserves_modes: false, stable: true },
            ModuleWordEntry { short_name: "TIMESTAMP", description: "Resolve a civil datetime to an instant at a UTC offset (hours)", preserves_modes: false, stable: true },
            ModuleWordEntry { short_name: "DATE", description: "Extract the [Y M D] date from a datetime", preserves_modes: false, stable: true },
            ModuleWordEntry { short_name: "TIME", description: "Extract the [h m s] time-of-day from a datetime", preserves_modes: false, stable: true },
            ModuleWordEntry { short_name: "YEAR", description: "Year field of a date or datetime", preserves_modes: false, stable: true },
            ModuleWordEntry { short_name: "MONTH", description: "Month field of a date or datetime", preserves_modes: false, stable: true },
            ModuleWordEntry { short_name: "DAY", description: "Day field of a date or datetime", preserves_modes: false, stable: true },
            ModuleWordEntry { short_name: "HOUR", description: "Hour field of a time or datetime", preserves_modes: false, stable: true },
            ModuleWordEntry { short_name: "MINUTE", description: "Minute field of a time or datetime", preserves_modes: false, stable: true },
            ModuleWordEntry { short_name: "SECOND", description: "Second field of a time or datetime", preserves_modes: false, stable: true },
            ModuleWordEntry { short_name: "WEEKDAY", description: "ISO weekday of a date or datetime (Monday=1 .. Sunday=7)", preserves_modes: false, stable: true },
            ModuleWordEntry { short_name: "ADD-DAYS", description: "Shift a date or datetime by N whole days", preserves_modes: false, stable: true },
            ModuleWordEntry { short_name: "DIFF-DAYS", description: "Whole-day difference a-b between two dates/datetimes", preserves_modes: false, stable: true },
            ModuleWordEntry { short_name: "FORMAT", description: "ISO-8601 text for a date (YYYY-MM-DD) or datetime (YYYY-MM-DDThh:mm:ss)", preserves_modes: false, stable: true },
            ModuleWordEntry { short_name: "PARSE-ISO", description: "Parse an ISO-8601 civil string into a datetime; Bubble/NIL if invalid", preserves_modes: false, stable: true },
            ModuleWordEntry { short_name: "ADD-MONTHS", description: "Add N months to a date/datetime, clamping to the month end", preserves_modes: false, stable: true },
            ModuleWordEntry { short_name: "ADD-YEARS", description: "Add N years to a date/datetime, clamping Feb 29 in non-leap years", preserves_modes: false, stable: true },
        ]
    } else if m == 4 {
        vec![
            ModuleWordEntry { short_name: "CSPRNG", description: "Generate cryptographically secure random numbers", preserves_modes: false, stable: true },
            ModuleWordEntry { short_name: "HASH", description: "Compute hash value", preserves_modes: false, stable: true },
        ]
    } else if m == 5 {
        vec![
            ModuleWordEntry { short_name: "SORT", description: "Sort vector elements in ascending order", preserves_modes: false, stable: true },
            ModuleWordEntry { short_name: "UNIQUE", description: "Remove duplicate elements, preserving first-occurrence order", preserves_modes: false, stable: true },
            ModuleWordEntry { short_name: "CONTAINS", description: "True if a vector contains an element equal to the given value", preserves_modes: false, stable: true },
            ModuleWordEntry { short_name: "INDEX-OF", description: "Index of the first element equal to the value; Bubble/NIL if absent", preserves_modes: false, stable: true },
        ]
    } else if m == 6 {
        vec![
            ModuleWordEntry { short_name: "SQRT", description: "Square root. Exact rational roots stay exact; otherwise returns sound interval.", preserves_modes: false, stable: true },
            ModuleWordEntry { short_name: "SQRT-EPS", description: "Square root with explicit interval width bound eps.", preserves_modes: false, stable: true },
            ModuleWordEntry { short_name: "INTERVAL", description: "Create interval [lo, hi].", preserves_modes: false, stable: true },
            ModuleWordEntry { short_name: "LOWER", description: "Lower endpoint of number/interval.", preserves_modes: false, stable: true },
            ModuleWordEntry { short_name: "UPPER", description: "Upper endpoint of number/interval.", preserves_modes: false, stable: true },
            ModuleWordEntry { short_name: "WIDTH", description: "Interval width hi-lo.", preserves_modes: false, stable: true },
            ModuleWordEntry { short_name: "IS-EXACT", description: "True for exact number or degenerate interval.", preserves_modes: false, stable: true },
            ModuleWordEntry { short_name: "ABS", description: "Absolute value of a number.", preserves_modes: false, stable: true },
            ModuleWordEntry { short_name: "NEG", description: "Negate a number.", preserves_modes: false, stable: true },
            ModuleWordEntry { short_name: "SIGN", description: "Sign of a number: -1, 0, or 1.", preserves_modes: false, stable: true },
            ModuleWordEntry { short_name: "MIN", description: "Smaller of two numbers.", preserves_modes: false, stable: true },
            ModuleWordEntry { short_name: "MAX", description: "Larger of two numbers.", preserves_modes: false, stable: true },
            ModuleWordEntry { short_name: "POW", description: "Integer-exponent exact power: base exp -- base^exp.", preserves_modes: false, stable: true },
            ModuleWordEntry { short_name: "GCD", description: "Greatest common divisor of two integers.", preserves_modes: false, stable: true },
            ModuleWordEntry { short_name: "LCM", description: "Least common multiple of two integers.", preserves_modes: false, stable: true },
        ]
    } else {
        vec![
            ModuleWordEntry { short_name: "LIST-PORTS", description: "Ask the host to enumerate available serial ports", preserves_modes: false, stable: false },
            ModuleWordEntry { short_name: "OPEN", description: "Open a serial port by id; leaves the port-id handle on the stack", preserves_modes: false, stable: false },
            ModuleWordEntry { short_name: "CONFIGURE", description: "Set the baud rate of an open serial port", preserves_modes: false, stable: false },
            ModuleWordEntry { short_name: "WRITE", description: "Write a byte vector to an open serial port", preserves_modes: false, stable: false },
            ModuleWordEntry { short_name: "READ", description: "Drain received bytes from an open serial port; Bubble/NIL when none", preserves_modes: false, stable: false },
            ModuleWordEntry { short_name: "FLUSH", description: "Flush the outgoing buffer of an open serial port", preserves_modes: false, stable: false },
            ModuleWordEntry { short_name: "CLOSE", description: "Close an open serial port", preserves_modes: false, stable: false },
        ]
    }
}

/// Position `p` is the first of `names` whose text is `x`.
pub open spec fn first_name_at(names: Seq<&'static str>, x: Seq<char>, p: int) -> bool {
    0 <= p < names.len() && names[p]@ == x && forall|j: int| 0 <= j < p ==> (#[trigger] names[j])@ != x
}

/// The position of module `name`, or -1.
pub open spec fn module_pos(name: Seq<char>) -> int {
    if exists|p: int| first_name_at(module_names(), name, p) {
        choose|p: int| first_name_at(module_names(), name, p)
    } else {
        -1
    }
}

proof fn lemma_first_name_unique(names: Seq<&'static str>, x: Seq<char>, p: int, q: int)
    requires
        first_name_at(names, x, p),
        first_name_at(names, x, q),
    ensures
        p == q,
{
    if p < q {
        assert(names[p]@ != x);
    } else if q < p {
        assert(names[q]@ != x);
    }
}

/// The names of the words of a list, in order.
pub open spec fn entry_names(entries: Seq<ModuleWordEntry>) -> Seq<&'static str> {
    entries.map_values(|e: ModuleWordEntry| e.short_name)
}

/// The entry for word `short` of module `module`, by exact names.
pub open spec fn word_entry(module: Seq<char>, short: Seq<char>) -> Option<ModuleWordEntry> {
    let m = module_pos(module);
    if m < 0 {
        None
    } else {
        let names = entry_names(module_word_table(m));
        if exists|p: int| first_name_at(names, short, p) {
            Some(module_word_table(m)[choose|p: int| first_name_at(names, short, p)])
        } else {
            None
        }
    }
}

/// The first position of `names` whose text is `x`.
fn find_name(names: &Vec<&'static str>, x: &str) -> (r: Option<usize>)
    ensures
        match r {
            Some(p) => first_name_at(names@, x@, p as int),
            None => forall|j: int| 0 <= j < names@.len() ==> (#[trigger] names@[j])@ != x@,
        },
{
    let mut i: usize = 0;
    while i < names.len()
        invariant
            0 <= i <= names@.len(),
            forall|j: int| 0 <= j < i ==> (#[trigger] names@[j])@ != x@,
        decreases names@.len() - i,
    {
        if str_equal(names[i], x) {
            return Some(i);
        }
        i = i + 1;
    }
    None
}

/// All importable module names, in declaration order.
pub fn available_module_names() -> (r: Vec<&'static str>)
    ensures
        r@ == module_names(),
{
    vec!["MUSIC", "JSON", "IO", "TIME", "CRYPTO", "ALGO", "MATH", "SERIAL"]
}

pub(crate) fn categories() -> (r: Vec<&'static str>)
    ensures
        r@ == module_categories(),
{
    vec!["music", "json", "io", "time", "crypto", "algo", "math", "serial"]
}

/// The position of module `name` (exact, upper-case name).
pub fn module_index(name: &str) -> (r: Option<usize>)
    ensures
        match r {
            Some(m) => m == module_pos(name@) && m < 8,
            None => module_pos(name@) == -1,
        },
{
    let names = available_module_names();
    let r = find_name(&names, name);
    proof {
        match r {
            Some(p) => {
                assert forall|q: int| first_name_at(module_names(), name@, q) implies q == p by {
                    lemma_first_name_unique(module_names(), name@, p as int, q);
                }
            },
            None => {
                assert(!exists|p: int| first_name_at(module_names(), name@, p));
            },
        }
    }
    r
}

/// The position of word `short` among `entries`.
fn find_word(entries: &Vec<ModuleWordEntry>, short: &str) -> (r: Option<usize>)
    ensures
        match r {
            Some(p) => first_name_at(entry_names(entries@), short@, p as int),
            None => !exists|p: int| first_name_at(entry_names(entries@), short@, p),
        },
{
    let ghost names = entry_names(entries@);
    let mut i: usize = 0;
    while i < entries.len()
        invariant
            0 <= i <= entries@.len(),
            names == entry_names(entries@),
            names.len() == entries@.len(),
            forall|j: int| 0 <= j < i ==> (#[trigger] names[j])@ != short@,
        decreases entries@.len() - i,
    {
        if str_equal(entries[i].short_name, short) {
            proof {
                assert(names[i as int] == entries@[i as int].short_name);
            }
            return Some(i);
        }
        proof {
            assert(names[i as int] == entries@[i as int].short_name);
        }
        i = i + 1;
    }
    None
}

/// The entry for word `short` of module `module`, by exact names.
pub fn lookup_word(module: &str, short: &str) -> (r: Option<ModuleWordEntry>)
    ensures
        r == word_entry(module@, short@),
{
    match module_index(module) {
        None => None,
        Some(m) => {
            let entries = module_word_entries(m);
            match find_word(&entries, short) {
                Some(p) => {
                    proof {
                        let names = entry_names(module_word_table(m as int));
                        assert forall|q: int| first_name_at(names, short@, q) implies q == p by {
                            lemma_first_name_unique(names, short@, p as int, q);
                        }
                    }
                    Some(entries[p])
                },
                None => None,
            }
        },
    }
}

/// Whether a module of that name exists, in any letter case.
pub fn is_known_module(module_name: &str) -> (r: bool)
    ensures
        r == (module_pos(spec_to_uppercase(module_name@)) >= 0),
{
    let upper = to_uppercase(module_name);
    module_index(upper.as_str()).is_some()
}

/// The description of word `short_name` of module `module_name`, by exact
/// names.
pub fn module_word_description(module_name: &str, short_name: &str) -> (r: Option<&'static str>)
    ensures
        r == (match word_entry(module_name@, short_name@) {
            Some(e) => Some(e.description),
            None => None,
        }),
{
    match lookup_word(module_name, short_name) {
        Some(e) => Some(e.description),
        None => None,
    }
}

/// The catalog entry of a declared word.
pub open spec fn catalog_of(e: ModuleWordEntry) -> CatalogWord {
    CatalogWord { short_name: e.short_name, description: e.description, is_sample: false }
}

/// The full catalog of a module, in any letter case, whether or not it is
/// imported: every declared word, then every sample word (no module
/// declares sample words). `None` for an unknown module.
pub fn module_catalog_words(module_name: &str) -> (r: Option<Vec<CatalogWord>>)
    ensures
        r is Some <==> module_pos(spec_to_uppercase(module_name@)) >= 0,
        r matches Some(c) ==> c@ == module_word_table(module_pos(spec_to_uppercase(module_name@))).map_values(
            |e: ModuleWordEntry| catalog_of(e),
        ),
{
    let upper = to_uppercase(module_name);
    match module_index(upper.as_str()) {
        None => None,
        Some(m) => {
            let entries = module_word_entries(m);
            let mut out: Vec<CatalogWord> = Vec::new();
            let mut i: usize = 0;
            while i < entries.len()
                invariant
                    0 <= i <= entries@.len(),
                    out@ == entries@.take(i as int).map_values(|e: ModuleWordEntry| catalog_of(e)),
                decreases entries@.len() - i,
            {
                let e = entries[i];
                out.push(CatalogWord { short_name: e.short_name, description: e.description, is_sample: false });
                proof {
                    assert(entries@.take(i + 1) =~= entries@.take(i as int).push(e));
                    assert(out@ =~= entries@.take(i + 1).map_values(|e: ModuleWordEntry| catalog_of(e)));
                }
                i = i + 1;
            }
            proof {
                assert(entries@.take(i as int) =~= entries@);
            }
            Some(out)
        },
    }
}

/// A qualified name `MODULE@WORD`, split at its first `@`.
pub open spec fn split_qualified(name: Seq<char>) -> Option<(Seq<char>, Seq<char>)> {
    match first_index_of(name, '@') {
        Some(i) => Some((name.subrange(0, i), name.subrange(i + 1, name.len() as int))),
        None => None,
    }
}

/// The module word a qualified name of any letter case names.
pub open spec fn qualified_entry(name: Seq<char>) -> Option<ModuleWordEntry> {
    match split_qualified(spec_to_uppercase(name)) {
        Some((m, w)) => word_entry(m, w),
        None => None,
    }
}

/// Split `name` at its first `@` into the module part and the word part.
pub fn split_at_sign(name: &str) -> (r: Option<(String, String)>)
    ensures
        match split_qualified(name@) {
            Some((m, w)) => r matches Some((a, b)) && a@ == m && b@ == w,
            None => r is None,
        },
{
    match str_find_char(name, '@') {
        None => None,
        Some(i) => {
            proof {
                crate::text::lemma_first_index_of(name@, '@');
            }
            let n = name.unicode_len();
            let m = name.substring_char(0, i);
            let w = name.substring_char(i + 1, n);
            Some((String::from_str(m), String::from_str(w)))
        },
    }
}

/// Whether the module word a qualified name of any letter case names keeps
/// the interpreter's modes; `false` for anything that names no module word.
pub fn is_mode_preserving_word(name: &str) -> (r: bool)
    ensures
        r == (match qualified_entry(name@) {
            Some(e) => e.preserves_modes,
            None => false,
        }),
{
    let upper = to_uppercase(name);
    match split_at_sign(upper.as_str()) {
        None => false,
        Some((m, w)) => match lookup_word(m.as_str(), w.as_str()) {
            Some(e) => e.preserves_modes,
            None => false,
        },
    }
}

} // verus!
