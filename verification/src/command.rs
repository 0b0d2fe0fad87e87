use vstd::prelude::*;

use crate::assoc::{assoc_find, assoc_insert, assoc_view, keys_distinct};

verus! {

/// A command that a plugin registers; it runs with its arguments and
/// answers a status.
pub trait CommandHandler {
    fn handle(&mut self, args: &[String]) -> u32;
}

/// The registered commands, by name.
pub struct CommandRegistry<C> {
    commands: Vec<(String, C)>,
}

impl<C: CommandHandler> CommandRegistry<C> {
    /// The commands by name.
    pub closed spec fn view_map(&self) -> Map<Seq<char>, C> {
        assoc_view(self.commands@)
    }

    /// Names are unique.
    pub closed spec fn wf(&self) -> bool {
        keys_distinct(self.commands@)
    }

    /// No command.
    pub fn new() -> (r: Self)
        ensures
            r.wf(),
            r.view_map() == Map::<Seq<char>, C>::empty(),
    {
        CommandRegistry { commands: Vec::new() }
    }

    /// Registers a command under a name, replacing one of that name.
    pub fn register(&mut self, name: &str, command: C)
        requires
            old(self).wf(),
        ensures
            final(self).wf(),
            final(self).view_map() == old(self).view_map().insert(name@, command),
    {
        assoc_insert(&mut self.commands, name.to_owned(), command);
    }

    /// Runs the command of a name with the arguments and answers its
    /// status; `None` when no command has that name.
    pub fn execute(&mut self, name: &str, args: &[String]) -> (r: Option<u32>)
        requires
            old(self).wf(),
        ensures
            final(self).wf(),
            final(self).view_map().dom() == old(self).view_map().dom(),
            r is Some <==> old(self).view_map().dom().contains(name@),
            r is None ==> final(self).view_map() == old(self).view_map(),
    {
        let i = match assoc_find(&self.commands, name) {
            Some(i) => i,
            None => {
                proof {
                    crate::assoc::lemma_first_key_index(self.commands@, name@);
                    crate::assoc::lemma_assoc_index(self.commands@, name@);
                }
                return None;
            },
        };
        proof {
            crate::assoc::lemma_first_key_index(self.commands@, name@);
            crate::assoc::lemma_assoc_index(self.commands@, name@);
        }
        let ghost before = self.commands@;
        let status = self.commands[i].1.handle(args);
        proof {
            crate::assoc::lemma_assoc_update(before, i as int, before[i as int].0, self.commands@[i as int].1);
            assert(self.commands@ =~= before.update(i as int, (before[i as int].0, self.commands@[i as int].1)));
        }
        Some(status)
    }

    /// The names of the commands, each once.
    pub fn list(&self) -> (r: Vec<String>)
        requires
            self.wf(),
        ensures
            forall|a: int, b: int| 0 <= a < r@.len() && 0 <= b < r@.len() && a != b ==> r@[a]@ != r@[b]@,
            forall|k: Seq<char>| self.view_map().dom().contains(k) <==> exists|i: int| 0 <= i < r@.len() && r@[i]@ == k,
    {
        let mut out: Vec<String> = Vec::new();
        let mut i: usize = 0;
        while i < self.commands.len()
            invariant
                i <= self.commands@.len(),
                out@.len() == i,
                forall|j: int| 0 <= j < i ==> #[trigger] out@[j]@ == self.commands@[j].0@,
            decreases self.commands@.len() - i,
        {
            out.push(self.commands[i].0.clone());
            i = i + 1;
        }
        proof {
            assert forall|k: Seq<char>| self.view_map().dom().contains(k) <==> exists|i: int| 0 <= i < out@.len() && out@[i]@ == k by {
                crate::assoc::lemma_assoc_index(self.commands@, k);
                if self.view_map().dom().contains(k) {
                    let i = choose|i: int| crate::assoc::has_key_at(self.commands@, k, i);
                    assert(out@[i]@ == k);
                }
                if exists|i: int| 0 <= i < out@.len() && out@[i]@ == k {
                    let i = choose|i: int| 0 <= i < out@.len() && out@[i]@ == k;
                    assert(crate::assoc::has_key_at(self.commands@, k, i));
                }
            }
        }
        out
    }
}

} // verus!
