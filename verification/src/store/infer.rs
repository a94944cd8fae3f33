//! Inferring the prefix part lengths of a store from its directory tree.
//!
//! The lengths are not written down anywhere. They are read off the tree by
//! going down from the base directory, at each directory into the first
//! child that reading it gives, until a file is met: the lengths of the
//! names of the directories passed on the way are the prefix part lengths.
//! Nothing is checked beyond that; the first file found stands for all.

use crate::digest::hex_lower;
use crate::store::layout::lemma_segment_is_shard_name;
use crate::store::{path_of, segment, valid_lengths, Error, Store};
use crate::text::names_view;
use vstd::prelude::*;
use vstd::utf8::encode_utf8;

verus! {

/// What looking at a path gave.
#[derive(Debug)]
pub enum Probe {
    /// The path is neither a file nor a directory.
    NotDirectory,
    /// The path is a regular file.
    File,
    /// The path is no file and could not be read as a directory.
    Failed(std::io::Error),
    /// The path is a directory; the name of the first child that reading
    /// it gave, if it has any.
    First(Option<String>),
}

/// A `Probe` as plain values.
pub enum ProbeView {
    NotDirectory,
    File,
    Failed(std::io::Error),
    First(Option<Seq<char>>),
}

impl View for Probe {
    type V = ProbeView;

    open spec fn view(&self) -> ProbeView {
        match self {
            Probe::NotDirectory => ProbeView::NotDirectory,
            Probe::File => ProbeView::File,
            Probe::Failed(error) => ProbeView::Failed(*error),
            Probe::First(None) => ProbeView::First(None),
            Probe::First(Some(name)) => ProbeView::First(Some(name@)),
        }
    }
}

/// How an inference goes on after a look at a path.
#[derive(Debug)]
pub enum Step {
    /// The inference is over: the lengths, or nothing where the chain of
    /// first children ends in an empty directory, so that the store shows
    /// no file.
    Done(Option<Vec<usize>>),
    /// The path to look at next.
    Look(Vec<String>),
}

/// A `Step` as plain values.
pub enum StepView {
    Done(Option<Seq<usize>>),
    Look(Seq<Seq<char>>),
}

impl View for Step {
    type V = StepView;

    open spec fn view(&self) -> StepView {
        match self {
            Step::Done(None) => StepView::Done(None),
            Step::Done(Some(lengths)) => StepView::Done(Some(lengths@)),
            Step::Look(path) => StepView::Look(names_view(path@)),
        }
    }
}

/// Why an inference failed, as plain values.
pub enum FailureView {
    Io(std::io::Error),
    ExpectedDirectory(Seq<Seq<char>>),
}

/// An inference under way: the path that is looked at and the lengths of
/// the directory names passed so far.
#[derive(Debug)]
pub struct Inference {
    path: Vec<String>,
    acc: Vec<usize>,
}

/// An `Inference` as plain values.
pub struct InferenceView {
    pub path: Seq<Seq<char>>,
    pub acc: Seq<usize>,
}

impl View for Inference {
    type V = InferenceView;

    closed spec fn view(&self) -> InferenceView {
        InferenceView { path: names_view(self.path@), acc: self.acc@ }
    }
}

/// The number of bytes in a name.
pub open spec fn name_length(name: Seq<char>) -> usize {
    encode_utf8(name).len() as usize
}

/// What a look at the path of `state` leads to: the state afterwards and the
/// step to take, or a failure. The base must be a directory. Below it, a
/// file ends the inference with the lengths passed so far; a directory adds
/// the length of its name and is left through its first child, or ends the
/// inference with nothing where it is empty.
pub open spec fn look(state: InferenceView, probe: ProbeView) -> Result<
    (InferenceView, StepView),
    FailureView,
> {
    let at_base = state.path.len() <= 1;
    match probe {
        ProbeView::NotDirectory => Err(FailureView::ExpectedDirectory(state.path)),
        ProbeView::File => if at_base {
            Err(FailureView::ExpectedDirectory(state.path))
        } else {
            Ok((state, StepView::Done(Some(state.acc))))
        },
        ProbeView::Failed(error) => Err(FailureView::Io(error)),
        ProbeView::First(first) => {
            let acc = if at_base {
                state.acc
            } else {
                state.acc.push(name_length(state.path.last()))
            };
            match first {
                None => Ok((InferenceView { path: state.path, acc }, StepView::Done(None))),
                Some(name) => Ok(
                    (
                        InferenceView { path: state.path.push(name), acc },
                        StepView::Look(state.path.push(name)),
                    ),
                ),
            }
        },
    }
}

/// Where an inference ends that goes from `state` down through the
/// directories `names`, each the first child of the one before, and then
/// meets a file, or an empty directory where `ends_in_file` is false.
pub open spec fn follow(state: InferenceView, names: Seq<Seq<char>>, ends_in_file: bool) -> Result<
    Option<Seq<usize>>,
    FailureView,
>
    decreases names.len(),
{
    if names.len() == 0 {
        let last = if ends_in_file {
            ProbeView::File
        } else {
            ProbeView::First(None)
        };
        match look(state, last) {
            Ok((_, StepView::Done(lengths))) => Ok(lengths),
            Ok((_, StepView::Look(_))) => Ok(None),
            Err(failure) => Err(failure),
        }
    } else {
        match look(state, ProbeView::First(Some(names[0]))) {
            Ok((next, _)) => follow(next, names.drop_first(), ends_in_file),
            Err(failure) => Err(failure),
        }
    }
}

/// The state in which an inference starts.
pub open spec fn start(base: Seq<char>) -> InferenceView {
    InferenceView { path: seq![base], acc: Seq::empty() }
}

pub open spec fn failure_view(error: Error) -> Option<FailureView> {
    match error {
        Error::Io(error) => Some(FailureView::Io(error)),
        Error::ExpectedDirectory(path) => Some(FailureView::ExpectedDirectory(names_view(path@))),
        _ => None,
    }
}

impl Store {
    /// Starts to infer the prefix part lengths of the store at `base`: the
    /// base directory is the first path to look at.
    pub fn infer_prefix_part_lengths(base: &str) -> (inference: Inference)
        ensures
            inference@ == start(base@),
    {
        let mut path: Vec<String> = Vec::new();
        path.push(base.to_owned());
        let inference = Inference { path, acc: Vec::new() };
        assert(inference@.path =~= seq![base@]);
        inference
    }
}

impl Inference {
    /// The path to look at.
    pub fn path(&self) -> (path: &Vec<String>)
        ensures
            names_view(path@) == self@.path,
    {
        &self.path
    }

    /// Takes what looking at the current path gave and says how to go on.
    pub fn step(&mut self, probe: Probe) -> (result: Result<Step, Error>)
        ensures
            match look(old(self)@, probe@) {
                Ok((state, step)) => {
                    &&& final(self)@ == state
                    &&& result matches Ok(s) && s@ == step
                },
                Err(failure) => result matches Err(e) && failure_view(e) == Some(failure),
            },
    {
        let at_base = self.path.len() <= 1;
        let ghost before = self@;
        match probe {
            Probe::NotDirectory => Err(Error::ExpectedDirectory(self.path.clone())),
            Probe::File => if at_base {
                Err(Error::ExpectedDirectory(self.path.clone()))
            } else {
                Ok(Step::Done(Some(self.acc.clone())))
            },
            Probe::Failed(error) => Err(Error::Io(error)),
            Probe::First(first) => {
                if !at_base {
                    let length = self.path[self.path.len() - 1].as_str().as_bytes().len();
                    assert(before.path.last() == self.path@[self.path@.len() - 1]@);
                    self.acc.push(length);
                }
                match first {
                    None => Ok(Step::Done(None)),
                    Some(name) => {
                        self.path.push(name);
                        assert(names_view(self.path@) =~= before.path.push(name@));
                        Ok(Step::Look(self.path.clone()))
                    },
                }
            },
        }
    }
}

/// In a store where the first child of each directory leads to the file of
/// some blob, the lengths that are inferred are the lengths that the store
/// was built with.
pub proof fn lemma_inference_gives_lengths(base: Seq<char>, lengths: Seq<usize>, digest: Seq<u8>)
    requires
        digest.len() == 16,
        valid_lengths(lengths),
    ensures
        follow(start(base), path_of(base, lengths, digest).drop_first(), true) == Ok::<
            Option<Seq<usize>>,
            FailureView,
        >(Some(lengths)),
{
    let path = path_of(base, lengths, digest);
    let names = path.drop_first();
    assert forall|k: int| 0 <= k < lengths.len() implies name_length(#[trigger] names[k])
        == lengths[k] by {
        lemma_segment_is_shard_name(lengths, digest, k);
        assert(names[k] == segment(lengths, hex_lower(digest), k));
    }
    assert(lengths.take(0) =~= Seq::<usize>::empty());
    lemma_follow(start(base), names, lengths, 0);
    assert(names.skip(0) =~= names);
}

proof fn lemma_follow(state: InferenceView, names: Seq<Seq<char>>, lengths: Seq<usize>, done: int)
    requires
        names.len() == lengths.len() + 1,
        0 <= done <= names.len(),
        forall|k: int| 0 <= k < lengths.len() ==> name_length(#[trigger] names[k]) == lengths[k],
        state.path.len() == done + 1,
        done > 0 ==> state.path.last() == names[done - 1],
        state.acc == lengths.take(if done == 0 {
            0
        } else {
            done - 1
        }),
    ensures
        follow(state, names.skip(done), true) == Ok::<Option<Seq<usize>>, FailureView>(
            Some(lengths),
        ),
    decreases names.len() - done,
{
    let rest = names.skip(done);
    if done == names.len() {
        assert(lengths.take(done - 1) =~= lengths);
    } else {
        let next = look(state, ProbeView::First(Some(rest[0])))->Ok_0.0;
        assert(rest[0] == names[done]);
        assert(rest.drop_first() =~= names.skip(done + 1));
        if done > 0 {
            assert(lengths.take(done - 1).push(lengths[done - 1]) =~= lengths.take(done));
        }
        lemma_follow(next, names, lengths, done + 1);
    }
}

/// A store whose chain of first children ends in a directory without
/// children shows no file, and nothing is inferred, whatever directories
/// there are.
pub proof fn lemma_inference_of_empty_store(base: Seq<char>, names: Seq<Seq<char>>)
    ensures
        follow(start(base), names, false) == Ok::<Option<Seq<usize>>, FailureView>(None),
{
    lemma_follow_empty(start(base), names);
}

proof fn lemma_follow_empty(state: InferenceView, names: Seq<Seq<char>>)
    ensures
        follow(state, names, false) == Ok::<Option<Seq<usize>>, FailureView>(None),
    decreases names.len(),
{
    if names.len() > 0 {
        let next = look(state, ProbeView::First(Some(names[0])))->Ok_0.0;
        lemma_follow_empty(next, names.drop_first());
    }
}

} // verus!
