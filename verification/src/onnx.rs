//! What the in-process encoder is told and what is read off its output.
use vstd::prelude::*;

use crate::embed::first_len;
use crate::embed::Role;
use crate::error::Error;

verus! {

broadcast use vstd::string::group_string_axioms;

/// The model's window in tokens; longer texts are truncated, which for a memory is the right
/// failure.
pub const MAX_TOKENS: usize = 512;

/// What is known of a loaded encoder: its name, and how long its vectors are once one pass
/// has shown it.
#[derive(Debug, Clone, PartialEq)]
pub struct Onnx {
    pub dim: usize,
    pub name: String,
}

impl Onnx {
    /// Whether both files are there, the model looked at first.
    pub fn check_files(
        model: &str,
        model_is_file: bool,
        tokenizer: &str,
        tokenizer_is_file: bool,
    ) -> (r: Result<(), Error>)
        ensures
            match r {
                Ok(_) => model_is_file && tokenizer_is_file,
                Err(Error::ModelNotFound(path)) => !model_is_file && path@ == model@,
                Err(Error::TokenizerNotFound(path)) => model_is_file && !tokenizer_is_file && path@
                    == tokenizer@,
                Err(_) => false,
            },
    {
        if !model_is_file {
            Err(Error::ModelNotFound(model.to_owned()))
        } else if !tokenizer_is_file {
            Err(Error::TokenizerNotFound(tokenizer.to_owned()))
        } else {
            Ok(())
        }
    }

    /// An encoder that has not run yet, named after the directory that its model lies in, or
    /// `onnx` where there is none.
    pub fn load(directory: Option<String>) -> (r: Onnx)
        ensures
            r.dim == 0,
            r.name@ == match directory {
                Some(s) => s@,
                None => "onnx"@,
            },
    {
        let name = match directory {
            Some(s) => s,
            None => "onnx".to_owned(),
        };
        Onnx { dim: 0, name }
    }

    /// What the first pass embeds, and in which role.
    pub fn warm_up_texts() -> (r: (Vec<String>, Role))
        ensures
            r.0@.len() == 1,
            r.0@[0]@ == "hello"@,
            r.1 == Role::Document,
    {
        let mut texts: Vec<String> = Vec::new();
        texts.push("hello".to_owned());
        (texts, Role::Document)
    }

    /// Learns the dimension from the vectors of a first pass: what the graph says it is.
    pub fn warm_up<T>(&mut self, vectors: &Vec<Vec<T>>) -> (r: Result<(), Error>)
        ensures
            final(self).name == old(self).name,
            final(self).dim == learned(vectors@),
            r == if final(self).dim == 0 {
                Err::<(), Error>(Error::EmptyVector)
            } else {
                Ok(())
            },
    {
        self.dim = if vectors.is_empty() {
            0
        } else {
            vectors[0].len()
        };
        if self.dim == 0 {
            Err(Error::EmptyVector)
        } else {
            Ok(())
        }
    }
}

/// The dimension that is learned from the vectors of a first pass: how long the first is.
pub open spec fn learned<T>(vectors: Seq<Vec<T>>) -> nat {
    match first_len(vectors) {
        Some(n) => n,
        None => 0,
    }
}

/// A row of numbers, each of them widened.
pub open spec fn widened(s: Seq<u32>) -> Seq<i64> {
    s.map_values(|n: u32| n as i64)
}

fn widen(s: &[u32]) -> (r: Vec<i64>)
    ensures
        r@ == widened(s@),
{
    let mut out: Vec<i64> = Vec::new();
    let mut i: usize = 0;
    while i < s.len()
        invariant
            i <= s@.len(),
            out@ == widened(s@).take(i as int),
        decreases s@.len() - i,
    {
        out.push(s[i] as i64);
        assert(widened(s@).take(i + 1) == widened(s@).take(i as int).push(widened(s@)[i as int]));
        i = i + 1;
    }
    assert(widened(s@).take(i as int) == widened(s@));
    out
}

/// One text as the encoder takes it: three rows of one tensor shape, `[1, tokens]`.
#[derive(Debug, Clone, PartialEq)]
pub struct ModelInput {
    pub tokens: usize,
    pub input_ids: Vec<i64>,
    pub attention_mask: Vec<i64>,
    pub token_type_ids: Vec<i64>,
}

impl ModelInput {
    /// The input for a text with these token ids, this attention mask and these type ids. The
    /// ids say how many tokens there are.
    pub fn of(ids: &[u32], mask: &[u32], types: &[u32]) -> (r: ModelInput)
        ensures
            r.tokens == ids@.len(),
            r.input_ids@ == widened(ids@),
            r.attention_mask@ == widened(mask@),
            r.token_type_ids@ == widened(types@),
    {
        ModelInput {
            tokens: ids.len(),
            input_ids: widen(ids),
            attention_mask: widen(mask),
            token_type_ids: widen(types),
        }
    }
}

/// How long the row of the first token is in an output of this shape that holds `len`
/// numbers: `[1, tokens, dim]`, so `dim`. There must be that many numbers, and one at least.
/// An extent below zero is more than any output holds.
pub fn first_row(shape: &[i64], len: usize) -> (r: Result<usize, Error>)
    ensures
        r == if shape@.len() == 0 {
            Err::<usize, Error>(Error::NoShape)
        } else if len >= shape@.last() as usize && shape@.last() as usize > 0 {
            Ok(shape@.last() as usize)
        } else {
            Err(Error::OutputTooSmall)
        },
        shape@.len() > 0 && shape@.last() < 0 && usize::BITS == 64 && len <= isize::MAX ==> r == Err::<
            usize,
            Error,
        >(Error::OutputTooSmall),
{
    match shape.last() {
        None => Err(Error::NoShape),
        Some(last) => {
            proof {
                let n: i64 = *last;
                assert(n < 0 ==> n as u64 > 0x7fff_ffff_ffff_ffff) by (bit_vector);
                assert(usize::BITS == 64 ==> n as usize == n as u64) by (bit_vector);
            }
            let dim: usize = *last as usize;
            if len >= dim && dim > 0 {
                Ok(dim)
            } else {
                Err(Error::OutputTooSmall)
            }
        },
    }
}

/// The row of the first token in an output of this shape that holds `data`: as many numbers as
/// the last extent says, from the front. There must be that many numbers, and one at least.
pub open spec fn row_of<T>(shape: Seq<i64>, data: Seq<T>) -> Result<Seq<T>, Error> {
    if shape.len() == 0 {
        Err(Error::NoShape)
    } else if data.len() >= shape.last() as usize && shape.last() as usize > 0 {
        Ok(data.take(shape.last() as usize as int))
    } else {
        Err(Error::OutputTooSmall)
    }
}

/// The row of the first token, which stands for the whole text: `[1, tokens, dim]` holds it in
/// its first `dim` numbers. An extent below zero is more than any output holds.
pub fn cls_row<T: Copy>(shape: &[i64], data: &[T]) -> (r: Result<Vec<T>, Error>)
    ensures
        match r {
            Ok(row) => row_of(shape@, data@) == Ok::<Seq<T>, Error>(row@),
            Err(e) => row_of(shape@, data@) == Err::<Seq<T>, Error>(e),
        },
        shape@.len() > 0 && shape@.last() < 0 && usize::BITS == 64 && data@.len() <= isize::MAX
            ==> r == Err::<Vec<T>, Error>(Error::OutputTooSmall),
{
    let dim: usize = match first_row(shape, data.len()) {
        Ok(dim) => dim,
        Err(e) => return Err(e),
    };
    let mut row: Vec<T> = Vec::new();
    let mut i: usize = 0;
    while i < dim
        invariant
            i <= dim <= data@.len(),
            row@ == data@.take(i as int),
        decreases dim - i,
    {
        row.push(data[i]);
        assert(data@.take(i + 1) == data@.take(i as int).push(data@[i as int]));
        i = i + 1;
    }
    Ok(row)
}

/// The dimension is what the graph says it is: where the first pass gave one row, every later
/// row of an output with the same last extent is as long as the dimension that was learned,
/// and that is not 0.
pub proof fn later_rows_have_the_learned_dimension<T>(
    warm: Seq<Vec<T>>,
    warm_shape: Seq<i64>,
    warm_data: Seq<T>,
    shape: Seq<i64>,
    data: Seq<T>,
)
    requires
        warm.len() == 1,
        row_of(warm_shape, warm_data) == Ok::<Seq<T>, Error>(warm[0]@),
        row_of(shape, data) is Ok,
        shape.last() == warm_shape.last(),
    ensures
        learned(warm) > 0,
        row_of(shape, data)->Ok_0.len() == learned(warm),
{
}

/// A row is the front of the output, number by number, and as long as the last extent; there is
/// one wherever that extent is at least 1 and the output holds so many numbers.
pub proof fn a_row_is_the_front_of_the_output<T>(shape: Seq<i64>, data: Seq<T>)
    requires
        shape.len() > 0 ==> 0 <= shape.last() <= usize::MAX,
    ensures
        shape.len() == 0 ==> row_of(shape, data) == Err::<Seq<T>, Error>(Error::NoShape),
        shape.len() > 0 ==> {
            let r = row_of(shape, data);
            &&& r is Ok <==> 1 <= shape.last() <= data.len()
            &&& r is Err ==> r == Err::<Seq<T>, Error>(Error::OutputTooSmall)
            &&& r is Ok ==> r->Ok_0.len() == shape.last()
            &&& r is Ok ==> forall|i: int| 0 <= i < shape.last() ==> #[trigger] r->Ok_0[i] == data[i]
        },
{
}

/// Widening changes no number and moves none.
pub proof fn widening_changes_no_number(s: Seq<u32>)
    ensures
        widened(s).len() == s.len(),
        forall|i: int| 0 <= i < s.len() ==> #[trigger] widened(s)[i] == s[i],
{
}

/// What is learned of a first pass is how long its first vector is, and 0 of a pass that gave
/// none.
pub proof fn a_first_pass_tells_the_dimension<T>(vectors: Seq<Vec<T>>)
    ensures
        vectors.len() > 0 ==> learned(vectors) == vectors[0]@.len(),
        vectors.len() == 0 ==> learned(vectors) == 0,
{
}

} // verus!
