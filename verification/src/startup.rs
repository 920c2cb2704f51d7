//! What is settled when the program starts.

use crate::store::TaskStore;
use crate::task::ScriptTask;
use vstd::prelude::*;
use vstd::string::*;

verus! {

use crate::store;
use crate::task;
use crate::task::TaskView;

broadcast use vstd::string::group_string_axioms;

/// The tasks that are taken up from what was kept: of those under one key the last.
pub open spec fn restored(kept: Seq<(Seq<char>, TaskView)>) -> Map<Seq<char>, TaskView>
    decreases kept.len(),
{
    if kept.len() == 0 {
        Map::empty()
    } else {
        restored(kept.drop_last()).insert(kept.last().0, task::recovered(kept.last().1))
    }
}

/// Takes up the tasks that were kept. Where they could not be had, there are none.
pub fn restore_tasks(kept: Option<Vec<(String, ScriptTask)>>) -> (tasks: TaskStore)
    ensures
        tasks.wf(),
        tasks@ == match kept {
            Some(kept) => restored(store::pairs_view(kept@)),
            None => Map::<Seq<char>, TaskView>::empty(),
        },
{
    let mut tasks = TaskStore::new();
    match kept {
        None => {},
        Some(kept) => {
            let ghost pairs = store::pairs_view(kept@);
            let mut i: usize = 0;
            proof {
                assert(restored(pairs.take(0)) =~= Map::<Seq<char>, TaskView>::empty());
            }
            while i < kept.len()
                invariant
                    i <= kept@.len(),
                    tasks.wf(),
                    pairs == store::pairs_view(kept@),
                    tasks@ == restored(pairs.take(i as int)),
                decreases kept@.len() - i,
            {
                let key = kept[i].0.clone();
                let mut task = kept[i].1.clone();
                task.recover();
                tasks.insert(key, task);
                proof {
                    assert(pairs.take(i + 1).drop_last() =~= pairs.take(i as int));
                    assert(pairs.take(i + 1).last() == pairs[i as int]);
                }
                i = i + 1;
            }
            proof {
                assert(pairs.take(pairs.len() as int) =~= pairs);
            }
        },
    }
    tasks
}

/// The address at which requests are taken: the one asked for, else port 8080 of this machine.
pub fn bind_address(asked: Option<String>) -> (r: String)
    ensures
        r@ == match asked {
            Some(address) => address@,
            None => "127.0.0.1:8080"@,
        },
{
    match asked {
        Some(address) => address,
        None => "127.0.0.1:8080".to_owned(),
    }
}

} // verus!
