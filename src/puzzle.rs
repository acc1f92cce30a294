use vstd::prelude::*;
use crate::machine::LoadError;

verus! {

/// What an answer stream does at its grid edge.
#[allow(non_camel_case_types)]
#[derive(Clone, Copy, Debug, PartialEq, Eq, Structural)]
pub enum StreamType {
    STREAM_INPUT,
    STREAM_OUTPUT,
    STREAM_IMAGE,
}

/// The kind of node that sits in one grid cell.
#[allow(non_camel_case_types)]
#[derive(Clone, Copy, Debug, PartialEq, Eq, Structural)]
pub enum NodeType {
    TILE_COMPUTE,
    TILE_MEMORY,
    TILE_DAMAGED,
}

impl StreamType {
    pub open spec fn from_code_spec(code: i64) -> Option<StreamType> {
        if code == 1 {
            Some(StreamType::STREAM_INPUT)
        } else if code == 2 {
            Some(StreamType::STREAM_OUTPUT)
        } else if code == 3 {
            Some(StreamType::STREAM_IMAGE)
        } else {
            None
        }
    }

    /// The stream type a puzzle description denotes by `code`: 1 input,
    /// 2 output, 3 image; `None` for any other code.
    pub fn from_code(code: i64) -> (r: Option<StreamType>)
        ensures
            code == 1 <==> r == Some(StreamType::STREAM_INPUT),
            code == 2 <==> r == Some(StreamType::STREAM_OUTPUT),
            code == 3 <==> r == Some(StreamType::STREAM_IMAGE),
            r is None <==> !(1 <= code <= 3),
    {
        if code == 1 {
            Some(StreamType::STREAM_INPUT)
        } else if code == 2 {
            Some(StreamType::STREAM_OUTPUT)
        } else if code == 3 {
            Some(StreamType::STREAM_IMAGE)
        } else {
            None
        }
    }
}

impl NodeType {
    /// The node type a puzzle description denotes by `code`: 4 computing,
    /// 5 storage, 6 disabled; `None` for any other code.
    pub fn from_code(code: i64) -> (r: Option<NodeType>)
        ensures
            code == 4 <==> r == Some(NodeType::TILE_COMPUTE),
            code == 5 <==> r == Some(NodeType::TILE_MEMORY),
            code == 6 <==> r == Some(NodeType::TILE_DAMAGED),
            r is None <==> !(4 <= code <= 6),
    {
        if code == 4 {
            Some(NodeType::TILE_COMPUTE)
        } else if code == 5 {
            Some(NodeType::TILE_MEMORY)
        } else if code == 6 {
            Some(NodeType::TILE_DAMAGED)
        } else {
            None
        }
    }
}

/// The layout that a puzzle description gives as node-type codes, one per
/// cell; refused when a code names no node type.
pub fn layout_from_codes(codes: &Vec<i64>) -> (r: Result<Vec<NodeType>, LoadError>)
    ensures
        r is Ok <==> forall|k: int| 0 <= k < codes@.len() ==> 4 <= #[trigger] codes@[k] <= 6,
        r is Err ==> r == Err::<Vec<NodeType>, LoadError>(LoadError::UnknownNodeType),
        r matches Ok(l) ==> l@.len() == codes@.len() && forall|k: int| 0 <= k < codes@.len()
            ==> Some(#[trigger] l@[k]) == node_type_of(codes@[k]),
{
    let mut out: Vec<NodeType> = Vec::new();
    let mut k: usize = 0;
    while k < codes.len()
        invariant
            k <= codes@.len(),
            out@.len() == k,
            forall|j: int| 0 <= j < k ==> 4 <= #[trigger] codes@[j] <= 6,
            forall|j: int| 0 <= j < k ==> Some(#[trigger] out@[j]) == node_type_of(codes@[j]),
        decreases codes@.len() - k,
    {
        match NodeType::from_code(codes[k]) {
            Some(t) => out.push(t),
            None => return Err(LoadError::UnknownNodeType),
        }
        k += 1;
    }
    Ok(out)
}

/// The node type that `code` denotes in a puzzle description.
pub open spec fn node_type_of(code: i64) -> Option<NodeType> {
    if code == 4 {
        Some(NodeType::TILE_COMPUTE)
    } else if code == 5 {
        Some(NodeType::TILE_MEMORY)
    } else if code == 6 {
        Some(NodeType::TILE_DAMAGED)
    } else {
        None
    }
}

/// An external stream bound to one column of the grid.
///
/// An input stream hands out `values` one by one, above row 0; `cursor`
/// counts how many have gone out. An output stream collects what the node
/// above it writes into `answers`, and `values` is the expected sequence.
pub struct AnswerStream {
    pub stream_type: StreamType,
    pub name: String,
    pub offset: usize,
    pub values: Vec<i32>,
    pub answers: Vec<i32>,
    pub cursor: usize,
}

/// The grid layout and its streams, as described by a puzzle.
pub struct Puzzle {
    pub streams: Vec<AnswerStream>,
    pub layout: Vec<NodeType>,
}

/// An output stream is satisfied when it has received exactly its reference
/// sequence.
pub open spec fn stream_satisfied(s: AnswerStream) -> bool {
    s.answers@ == s.values@
}

impl AnswerStream {
    pub open spec fn wf(&self) -> bool {
        self.cursor <= self.values@.len()
    }

    /// A fresh stream: nothing delivered, nothing received.
    pub fn new(stream_type: StreamType, name: String, offset: usize, values: Vec<i32>) -> (r: AnswerStream)
        ensures
            r.stream_type == stream_type,
            r.name@ == name@,
            r.offset == offset,
            r.values@ == values@,
            r.answers@.len() == 0,
            r.cursor == 0,
            r.wf(),
    {
        AnswerStream { stream_type, name, offset, values, answers: Vec::new(), cursor: 0 }
    }

    /// Whether the received sequence equals the reference sequence, element
    /// for element.
    pub fn check_completion(&self) -> (r: bool)
        ensures
            r == stream_satisfied(*self),
    {
        if self.values.len() != self.answers.len() {
            return false;
        }
        let mut index: usize = 0;
        while index < self.values.len()
            invariant
                self.values@.len() == self.answers@.len(),
                index <= self.values@.len(),
                forall|k: int| 0 <= k < index ==> self.values@[k] == self.answers@[k],
            decreases self.values@.len() - index,
        {
            if self.values[index] != self.answers[index] {
                return false;
            }
            index += 1;
        }
        assert(self.answers@ =~= self.values@);
        true
    }

    /// The next undelivered value of an input stream, which is then used up;
    /// `None` once the stream is exhausted or when it is no input stream.
    pub fn take_input(&mut self) -> (r: Option<i32>)
        requires
            old(self).wf(),
        ensures
            final(self).wf(),
            final(self).stream_type == old(self).stream_type,
            final(self).offset == old(self).offset,
            final(self).name@ == old(self).name@,
            final(self).values@ == old(self).values@,
            final(self).answers@ == old(self).answers@,
            (old(self).stream_type is STREAM_INPUT && old(self).cursor < old(self).values@.len()) ==> {
                &&& r == Some(old(self).values@[old(self).cursor as int])
                &&& final(self).cursor == old(self).cursor + 1
            },
            !(old(self).stream_type is STREAM_INPUT && old(self).cursor < old(self).values@.len()) ==> {
                &&& r.is_none()
                &&& *final(self) == *old(self)
            },
    {
        if self.stream_type == StreamType::STREAM_INPUT && self.cursor < self.values.len() {
            let v = self.values[self.cursor];
            self.cursor = self.cursor + 1;
            Some(v)
        } else {
            None
        }
    }

    /// A fresh stream of the type that a puzzle description denotes by
    /// `code`; refused when the code names no stream type.
    pub fn from_code(code: i64, name: String, offset: usize, values: Vec<i32>) -> (r: Result<AnswerStream, LoadError>)
        ensures
            r is Err <==> !(1 <= code <= 3),
            r is Err ==> r == Err::<AnswerStream, LoadError>(LoadError::UnknownStreamType),
            r matches Ok(s) ==> {
                &&& Some(s.stream_type) == StreamType::from_code_spec(code)
                &&& s.name@ == name@
                &&& s.offset == offset
                &&& s.values@ == values@
                &&& s.answers@.len() == 0
                &&& s.cursor == 0
            },
    {
        match StreamType::from_code(code) {
            Some(t) => Ok(AnswerStream::new(t, name, offset, values)),
            None => Err(LoadError::UnknownStreamType),
        }
    }

    /// Forgets all progress: nothing delivered, nothing received.
    pub fn rewind(&mut self)
        ensures
            final(self).stream_type == old(self).stream_type,
            final(self).offset == old(self).offset,
            final(self).name@ == old(self).name@,
            final(self).values@ == old(self).values@,
            final(self).answers@.len() == 0,
            final(self).cursor == 0,
            final(self).wf(),
    {
        self.answers = Vec::new();
        self.cursor = 0;
    }

    /// Appends a value received by an output stream.
    pub fn receive(&mut self, value: i32)
        ensures
            final(self).stream_type == old(self).stream_type,
            final(self).offset == old(self).offset,
            final(self).name@ == old(self).name@,
            final(self).values@ == old(self).values@,
            final(self).cursor == old(self).cursor,
            final(self).answers@ == old(self).answers@.push(value),
    {
        self.answers.push(value);
    }
}

} // verus!
