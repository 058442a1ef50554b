# patchify

Batch edits, writes and verify commands in one atomic call. A request names exact-string
edits, files to write and shell commands to run afterwards. Either all edits and writes
land, or every file is left as it was, byte for byte.

`src/` is the library. It is written in Verus: what each function returns is stated in its
contract and proved. `app/` is the command around it: it reads the request, performs on
the file system what the library asks for, and prints the result.

## How a batch runs

`Session` is the executor. It holds no file handle and makes no system call. It says which
action comes next (`Session::action`) and takes what came of it (`Session::advance`) until
nothing is left to do; then it gives the result (`Session::into_result`).

1. The request is checked as a whole (`validate`, `path`).
2. Every edit is matched against its target, or against the result of the edit before it on
   the same file (`plan`, `matching`). Nothing is written as long as this has not succeeded
   for all of them.
3. The edits are written, then the writes. Each file is locked and read again first; if it
   is not what it was, the batch fails (`guard`).
4. The verify commands run (`verify`).

A failure in step 3 undoes what was done, latest first. A dry run takes step 2 only: it
matches every edit as pre-flight does, goes on after one that fails, reports what each edit
would do, and touches nothing.

Whether a target lies inside the working directory once symbolic links are followed is
decided by `confine::Resolver`, which works in the same way: it asks, the driver looks.

## What is proved

- `disk`: a batch that ends in an error leaves every file as it was, as long as files can
  be written back (`law_all_or_nothing`); a batch that goes through leaves in each file
  what the request says, and touches no other file (`law_what_lands`,
  `law_every_edit_matched`); where all edits match and the driver reports no trouble, a
  batch does go through (`law_success_is_owed`); a dry run touches no file
  (`law_dry_run_touches_nothing`).
- `dry`: a dry run matches each edit against what the edits before it make of the file
  (`law_dry_run_composes`), is fine exactly where all edits match and no target lies
  outside (`law_dry_run_verdict`), and so foretells the batch
  (`law_dry_run_foretells_the_batch`).
- `course`: nothing is touched before pre-flight is done, phases come in order, every file
  is locked and found unchanged before it is written, no file is worked on before it was
  found to lie inside, the directories that writes want are made, every session ends, and
  the statuses tell what happened.
- `validate`, `path`, `guard`, `matching`, `preview`, `verify`, `confine`, `json`: what a
  request must keep to be accepted, that normal paths stay inside, that only an unchanged
  file passes the guard, that matching characters is matching bytes, that a preview shows
  the first changed hunk and is short, the size of outputs, that the search through links
  ends and says yes only where the real place lies inside, and that the JSON document
  stands on one line.

`machine` is the model of a session that the contracts of `session` speak of.

## What is trusted

`String::push`, `std::str::from_utf8` and `String::from_utf8_lossy` (in `text`), and
`serde_json::to_string` on a text (in `json`). Each has its contract beside it.

## Paths

How a host reads paths is an argument (`Style`): on Unix `/` separates components, on Windows
`\` does so too, and drives, shares and devices are known. `safe_relative_path`,
`validate_request` and `Session::start` read paths as Unix does; `safe_relative_path_on`,
`validate_request_on` and `Session::start_on` take the style. The command passes that of the
host it was built for.
