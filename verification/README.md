# task_sync

Task and synchronisation bookkeeping of a small teaching kernel, verified
with Verus.

- `src/task/banker.rs`: the banker's safety check, and the proofs that, when
  no allocation is negative, it succeeds exactly when some order lets every
  thread finish, and that more free units never make a safe state unsafe.
- `src/task/mod.rs`: `check_system_state`, answering wait, safe or deadlock.
- `src/task/process.rs`: a process's mutex, semaphore and condition-variable
  tables, the banker's matrices over them, its thread table and exit state.
- `src/task/manager.rs`: the ready queue with stride scheduling.
- `src/task/task.rs`: the task control block, program-break moves, and the
  decisions of map and unmap requests.
- `src/task/trap.rs`: the trap context a new thread starts from.
- `src/sync/`: spinning and blocking mutexes, counting semaphores and
  condition variables, each deciding who blocks and who is woken.
- `src/syscall/`: the synchronisation and thread system calls, each a
  transition of the process state stated as a spec function, and their laws.
- `app/`: the global ready queue and timer list, and the glue that blocks,
  yields, wakes and edits page tables as the library decides.
