//! The key/value store of one plan execution.
use vstd::prelude::*;

verus! {

/// The value last stored under `key`, if any.
pub open spec fn lookup(entries: Seq<(String, String)>, key: Seq<char>) -> Option<Seq<char>>
    decreases entries.len(),
{
    if entries.len() == 0 {
        None
    } else if entries.last().0@ == key {
        Some(entries.last().1@)
    } else {
        lookup(entries.drop_last(), key)
    }
}

/// Step outputs by step id, and the working directory of the execution.
#[derive(Clone, Debug, Default)]
pub struct ExecutionContext {
    pub outputs: Vec<(String, String)>,
    pub working_dir: Option<String>,
}

impl ExecutionContext {
    /// An empty context.
    pub fn new(working_dir: Option<String>) -> (r: Self)
        ensures
            r.outputs.len() == 0,
            r.working_dir == working_dir,
    {
        ExecutionContext { outputs: Vec::new(), working_dir }
    }

    /// Stores the output of a step; a later value replaces an earlier one.
    pub fn set_output(&mut self, step_id: &str, output: String)
        ensures
            forall|k: Seq<char>|
                #[trigger] lookup(final(self).outputs@, k) == if k == step_id@ {
                    Some(output@)
                } else {
                    lookup(old(self).outputs@, k)
                },
            final(self).working_dir == old(self).working_dir,
    {
        let ghost before = self.outputs@;
        self.outputs.push((step_id.to_owned(), output));
        proof {
            assert(self.outputs@.drop_last() =~= before);
        }
    }

    /// The output stored for a step.
    pub fn get_output(&self, step_id: &str) -> (r: Option<&String>)
        ensures
            match r {
                Some(v) => lookup(self.outputs@, step_id@) == Some(v@),
                None => lookup(self.outputs@, step_id@) is None,
            },
    {
        let key = step_id.to_owned();
        let mut i: usize = self.outputs.len();
        proof {
            assert(self.outputs@.subrange(0, i as int) =~= self.outputs@);
        }
        while i > 0
            invariant
                key@ == step_id@,
                i <= self.outputs.len(),
                lookup(self.outputs@, step_id@) == lookup(self.outputs@.subrange(0, i as int), step_id@),
            decreases i,
        {
            let ghost pre = self.outputs@.subrange(0, i as int);
            proof {
                assert(pre.drop_last() =~= self.outputs@.subrange(0, i - 1));
            }
            if self.outputs[i - 1].0 == key {
                return Some(&self.outputs[i - 1].1);
            }
            i = i - 1;
        }
        None
    }

    /// The working directory of the execution.
    pub fn working_dir(&self) -> (r: Option<&str>)
        ensures
            r is Some == self.working_dir is Some,
            r matches Some(d) ==> d@ == self.working_dir->0@,
    {
        match &self.working_dir {
            Some(w) => Some(w.as_str()),
            None => None,
        }
    }
}

} // verus!
