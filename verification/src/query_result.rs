//! The result of one query, as the engine handed it back.

use crate::error::{fails_with, Error, Fault};
use crate::rowbinary::de::decode_rows;
use crate::rowbinary::model::text_of;
use crate::rowbinary::text::lossy_text;
use crate::rowbinary::value::{data_of, Shape, TextPolicy, Value};
use vstd::prelude::*;
use vstd::slice::slice_to_vec;
use vstd::utf8::{decode_utf8, valid_utf8};

verus! {

/// What the engine reports of one query: the bytes of the result in the
/// format that was asked for, how much it read to produce them, and its
/// complaint if the query failed.
#[derive(Debug)]
pub struct QueryResult {
    data: Vec<u8>,
    rows_read: u64,
    bytes_read: u64,
    error_message: Option<String>,
}

/// What a [`QueryResult`] holds.
pub struct QueryResultView {
    pub data: Seq<u8>,
    pub rows_read: nat,
    pub bytes_read: nat,
    pub error_message: Option<Seq<char>>,
}

impl View for QueryResult {
    type V = QueryResultView;

    closed spec fn view(&self) -> QueryResultView {
        QueryResultView {
            data: self.data@,
            rows_read: self.rows_read as nat,
            bytes_read: self.bytes_read as nat,
            error_message: match self.error_message {
                Some(text) => Some(text@),
                None => None,
            },
        }
    }
}

impl QueryResult {
    pub fn new(
        data: Vec<u8>,
        rows_read: u64,
        bytes_read: u64,
        error_message: Option<String>,
    ) -> (result: Self)
        ensures
            result@ == (QueryResultView {
                data: data@,
                rows_read: rows_read as nat,
                bytes_read: bytes_read as nat,
                error_message: match error_message {
                    Some(text) => Some(text@),
                    None => None,
                },
            }),
    {
        QueryResult { data, rows_read, bytes_read, error_message }
    }

    /// The result as text, if its bytes are well-formed UTF-8.
    pub fn data_utf8(&self) -> (outcome: Result<String, Error>)
        ensures
            valid_utf8(self@.data) ==> outcome is Ok && outcome->Ok_0@ == decode_utf8(self@.data),
            !valid_utf8(self@.data) ==> fails_with(outcome, Fault::FromUtf8Error),
    {
        match String::from_utf8(slice_to_vec(self.data.as_slice())) {
            Ok(text) => Ok(text),
            Err(error) => Err(Error::FromUtf8Error(error)),
        }
    }

    /// The result as text, with malformed bytes replaced.
    pub fn data_utf8_lossy(&self) -> (text: String)
        ensures
            Ok::<Seq<char>, Fault>(text@) == text_of(TextPolicy::Lossy, self@.data),
    {
        lossy_text(self.data.as_slice())
    }

    /// The bytes of the result.
    pub fn data_ref(&self) -> (bytes: &[u8])
        ensures
            bytes@ == self@.data,
    {
        self.data.as_slice()
    }

    /// How many rows the engine read.
    pub fn rows_read(&self) -> (count: u64)
        ensures
            count == self@.rows_read,
    {
        self.rows_read
    }

    /// How many bytes the engine read.
    pub fn bytes_read(&self) -> (count: u64)
        ensures
            count == self@.bytes_read,
    {
        self.bytes_read
    }

    /// The result itself, unless the engine complained: then its complaint,
    /// word for word.
    pub fn check_error(self) -> (outcome: Result<Self, Error>)
        ensures
            match self@.error_message {
                None => outcome is Ok && outcome->Ok_0@ == self@,
                Some(text) => fails_with(outcome, Fault::QueryError(text)),
            },
    {
        match self.check_error_ref() {
            Ok(()) => Ok(self),
            Err(error) => Err(error),
        }
    }

    /// Nothing, unless the engine complained: then its complaint, word for
    /// word.
    pub fn check_error_ref(&self) -> (outcome: Result<(), Error>)
        ensures
            match self@.error_message {
                None => outcome is Ok,
                Some(text) => fails_with(outcome, Fault::QueryError(text)),
            },
    {
        match &self.error_message {
            None => Ok(()),
            Some(text) => Err(Error::QueryError(text.clone())),
        }
    }

    /// Decodes as many rows of the declared `shape` as the engine says it
    /// read, and adds them behind those in `result`. Bytes after the last
    /// row are ignored. If one row fails, none is added.
    pub fn fetch_rows(&self, shape: &Shape, result: &mut Vec<Value>) -> (outcome: Result<
        (),
        Error,
    >)
        ensures
            match shape@.parse_many(self@.data, self@.rows_read).outcome {
                Ok(rows) => outcome is Ok && data_of(final(result)@) == data_of(old(result)@)
                    + rows,
                Err(fault) => fails_with(outcome, fault) && final(result)@ == old(result)@,
            },
    {
        match decode_rows(self.data_ref(), self.rows_read, shape) {
            Ok(mut rows) => {
                let ghost fresh = rows@;
                result.append(&mut rows);
                assert(data_of(result@) =~= data_of(old(result)@) + data_of(fresh));
                Ok(())
            },
            Err(error) => Err(error),
        }
    }
}

} // verus!
