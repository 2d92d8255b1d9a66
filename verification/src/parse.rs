//! Parsing of the stack traces that client SDKs report with each error.
use vstd::prelude::*;
use crate::text::{
    parse_i32, slice_chars, spec_lines, spec_parse_i32, spec_split, spec_words, split_lines,
    split_on, split_words, str_chars, string_from_chars,
};

verus! {

/// What a stack trace says about an error: its type and message from the first
/// line, and the origin from the frames that follow.
#[derive(Debug, Clone)]
pub struct StackTraceInfo {
    pub error_type: String,
    pub error_message: String,
    pub file_path: String,
    pub line_number: i32,
    pub function_name: String,
    pub module_name: String,
    pub stack_trace_lines: Vec<String>,
}

/// Spec-level contents of a `StackTraceInfo`.
pub struct StackTraceInfoView {
    pub error_type: Seq<char>,
    pub error_message: Seq<char>,
    pub file_path: Seq<char>,
    pub line_number: i32,
    pub function_name: Seq<char>,
    pub module_name: Seq<char>,
    pub stack_trace_lines: Seq<Seq<char>>,
}

impl View for StackTraceInfo {
    type V = StackTraceInfoView;

    open spec fn view(&self) -> StackTraceInfoView {
        StackTraceInfoView {
            error_type: self.error_type@,
            error_message: self.error_message@,
            file_path: self.file_path@,
            line_number: self.line_number,
            function_name: self.function_name@,
            module_name: self.module_name@,
            stack_trace_lines: self.stack_trace_lines@.map_values(|s: String| s@),
        }
    }
}

impl StackTraceInfo {
    /// An empty record: empty texts, line 0, no frames.
    pub fn default() -> (r: Self)
        ensures
            r@.error_type.len() == 0,
            r@.error_message.len() == 0,
            r@.file_path.len() == 0,
            r@.line_number == 0,
            r@.function_name.len() == 0,
            r@.module_name.len() == 0,
            r@.stack_trace_lines.len() == 0,
    {
        StackTraceInfo {
            error_type: String::new(),
            error_message: String::new(),
            file_path: String::new(),
            line_number: 0,
            function_name: String::new(),
            module_name: String::new(),
            stack_trace_lines: Vec::new(),
        }
    }

    /// A record holding exactly the given values.
    pub fn new(
        error_type: String,
        error_message: String,
        file_path: String,
        line_number: i32,
        function_name: String,
        module_name: String,
        stack_trace_lines: Vec<String>,
    ) -> (r: Self)
        ensures
            r.error_type == error_type,
            r.error_message == error_message,
            r.file_path == file_path,
            r.line_number == line_number,
            r.function_name == function_name,
            r.module_name == module_name,
            r.stack_trace_lines == stack_trace_lines,
    {
        StackTraceInfo {
            error_type,
            error_message,
            file_path,
            line_number,
            function_name,
            module_name,
            stack_trace_lines,
        }
    }
}

/// `": "` starts at index `i` of `s`.
pub open spec fn colon_space_at(s: Seq<char>, i: int) -> bool {
    0 <= i && i + 1 < s.len() && s[i] == ':' && s[i + 1] == ' '
}

/// `i` is the first index at which `": "` starts.
pub open spec fn first_colon_space(s: Seq<char>, i: int) -> bool {
    colon_space_at(s, i) && forall|j: int| 0 <= j < i ==> !colon_space_at(s, j)
}

/// The first line split at its first `": "` into error type and message; a
/// line without `": "` is all message and has an empty type.
pub open spec fn header_parts(s: Seq<char>) -> (Seq<char>, Seq<char>) {
    if exists|i: int| colon_space_at(s, i) {
        let i = choose|i: int| first_colon_space(s, i);
        (s.take(i), s.skip(i + 2))
    } else {
        (seq![], s)
    }
}

/// The origin fields gathered from frame lines.
pub struct TraceFields {
    pub file_path: Seq<char>,
    pub line_number: i32,
    pub function_name: Seq<char>,
    pub module_name: Seq<char>,
}

/// A frame line's second word holds `path:line...`; its line part must read as an `i32`.
pub open spec fn frame_line_ok(line: Seq<char>) -> bool {
    let w = spec_words(line);
    w.len() > 1 && spec_split(w[1], ':').len() > 1 ==> spec_parse_i32(spec_split(w[1], ':')[1])
        is Some
}

/// Reading one frame line: the second word `path:line` sets file and line, the
/// third word the function, the fourth the module; fields a line lacks keep
/// their earlier values.
pub open spec fn trace_step(st: TraceFields, line: Seq<char>) -> TraceFields {
    let w = spec_words(line);
    if w.len() > 1 {
        let parts = spec_split(w[1], ':');
        let st1 = if parts.len() > 1 {
            TraceFields {
                file_path: parts[0],
                line_number: spec_parse_i32(parts[1])->0,
                ..st
            }
        } else {
            st
        };
        let st2 = if w.len() > 2 {
            TraceFields { function_name: w[2], ..st1 }
        } else {
            st1
        };
        if w.len() > 3 {
            TraceFields { module_name: w[3], ..st2 }
        } else {
            st2
        }
    } else {
        st
    }
}

/// The origin fields after reading the frame lines `frames` in order.
pub open spec fn trace_fold(frames: Seq<Seq<char>>) -> TraceFields
    decreases frames.len(),
{
    if frames.len() == 0 {
        TraceFields { file_path: seq![], line_number: 0, function_name: seq![], module_name: seq![] }
    } else {
        trace_step(trace_fold(frames.drop_last()), frames.last())
    }
}

/// What a non-empty list of trace lines describes.
pub open spec fn spec_trace_info(lines: Seq<Seq<char>>) -> StackTraceInfoView {
    let h = header_parts(lines[0]);
    let frames = lines.skip(1);
    let f = trace_fold(frames);
    StackTraceInfoView {
        error_type: h.0,
        error_message: h.1,
        file_path: f.file_path,
        line_number: f.line_number,
        function_name: f.function_name,
        module_name: f.module_name,
        stack_trace_lines: frames,
    }
}

/// Every frame line of `text` has a readable line number where it gives one.
pub open spec fn trace_frames_ok(text: Seq<char>) -> bool {
    forall|i: int| 1 <= i < spec_lines(text).len() ==> #[trigger] frame_line_ok(spec_lines(text)[i])
}

/// Index of the first `": "` in `s`, if any.
fn find_colon_space(s: &[char]) -> (r: Option<usize>)
    ensures
        match r {
            Some(i) => first_colon_space(s@, i as int),
            None => !exists|i: int| colon_space_at(s@, i),
        },
{
    let mut i: usize = 0;
    while i < s.len() && i + 1 < s.len()
        invariant
            i <= s@.len(),
            forall|j: int| 0 <= j < i ==> !colon_space_at(s@, j),
        decreases s@.len() - i,
    {
        if s[i] == ':' && s[i + 1] == ' ' {
            return Some(i);
        }
        i = i + 1;
    }
    proof {
        assert forall|j: int| !colon_space_at(s@, j) by {
            if 0 <= j && j >= i {
                assert(!(j + 1 < s@.len()));
            }
        }
    }
    None
}

fn split_header(s: &[char]) -> (r: (Vec<char>, Vec<char>))
    ensures
        r.0@ == header_parts(s@).0,
        r.1@ == header_parts(s@).1,
{
    match find_colon_space(s) {
        Some(i) => {
            proof {
                let k = choose|k: int| first_colon_space(s@, k);
                if k < i {
                    assert(!colon_space_at(s@, k));
                } else if k > i {
                    assert(!colon_space_at(s@, i as int));
                }
            }
            let n = s.len();
            assert(i + 1 < n);
            (slice_chars(s, 0, i), slice_chars(s, i + 2, n))
        },
        None => {
            let v = slice_chars(s, 0, s.len());
            assert(v@ =~= s@);
            (Vec::new(), v)
        },
    }
}

/// Parses a stack trace: the first line is `Type: message` (or just a message);
/// each further line is a frame whose second word is `path:line` and whose third
/// and fourth words name the function and the module. The last frame that gives
/// a field sets it. An empty trace is refused with "Stack trace is empty".
pub fn parse_stack_trace(stack_trace: &String) -> (r: Result<StackTraceInfo, &'static str>)
    requires
        trace_frames_ok(stack_trace@),
    ensures
        spec_lines(stack_trace@).len() == 0 <==> r is Err,
        r matches Err(e) ==> e@ == "Stack trace is empty"@,
        r matches Ok(info) ==> info@ == spec_trace_info(spec_lines(stack_trace@)),
{
    let text = str_chars(stack_trace.as_str());
    let lines = split_lines(&text);
    if lines.len() == 0 {
        return Err("Stack trace is empty");
    }
    let ghost all_lines = spec_lines(stack_trace@);
    let (etype, emsg) = split_header(&lines[0]);
    let mut file_path: Vec<char> = Vec::new();
    let mut line_number: i32 = 0;
    let mut function_name: Vec<char> = Vec::new();
    let mut module_name: Vec<char> = Vec::new();
    let mut stack_trace_lines: Vec<String> = Vec::new();
    let mut i: usize = 1;
    while i < lines.len()
        invariant
            1 <= i <= lines@.len(),
            all_lines == spec_lines(stack_trace@),
            lines@.len() == all_lines.len(),
            forall|j: int| 0 <= j < lines@.len() ==> #[trigger] lines@[j]@ == all_lines[j],
            trace_frames_ok(stack_trace@),
            file_path@ == trace_fold(all_lines.subrange(1, i as int)).file_path,
            line_number == trace_fold(all_lines.subrange(1, i as int)).line_number,
            function_name@ == trace_fold(all_lines.subrange(1, i as int)).function_name,
            module_name@ == trace_fold(all_lines.subrange(1, i as int)).module_name,
            stack_trace_lines@.map_values(|s: String| s@) == all_lines.subrange(1, i as int),
        decreases lines@.len() - i,
    {
        let line = &lines[i];
        stack_trace_lines.push(string_from_chars(line));
        let words = split_words(line);
        proof {
            assert(all_lines.subrange(1, i + 1).drop_last() =~= all_lines.subrange(1, i as int));
            assert(frame_line_ok(all_lines[i as int]));
            assert(stack_trace_lines@.map_values(|s: String| s@) =~= all_lines.subrange(
                1,
                i + 1,
            ));
        }
        if words.len() > 1 {
            let parts = split_on(&words[1], ':');
            if parts.len() > 1 {
                file_path = slice_chars(&parts[0], 0, parts[0].len());
                assert(file_path@ =~= parts@[0]@);
                match parse_i32(&parts[1]) {
                    Some(n) => {
                        line_number = n;
                    },
                    None => {
                        assert(false);
                    },
                }
            }
            if words.len() > 2 {
                function_name = slice_chars(&words[2], 0, words[2].len());
                assert(function_name@ =~= words@[2]@);
            }
            if words.len() > 3 {
                module_name = slice_chars(&words[3], 0, words[3].len());
                assert(module_name@ =~= words@[3]@);
            }
        }
        i = i + 1;
    }
    proof {
        assert(all_lines.subrange(1, lines@.len() as int) =~= all_lines.skip(1));
    }
    let info = StackTraceInfo::new(
        string_from_chars(&etype),
        string_from_chars(&emsg),
        string_from_chars(&file_path),
        line_number,
        string_from_chars(&function_name),
        string_from_chars(&module_name),
        stack_trace_lines,
    );
    Ok(info)
}

}
