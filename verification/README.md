# fastcount

An incredibly fast, incredibly useless counter, with its decisions verified by
Verus.

- `src/count.rs`: the counting cores
- `src/pool.rs`: how a count is shared out among workers and added up again
- `src/dispatch.rs`: the course of a count by a pool: jobs out, replies in
- `src/args.rs`, `src/options.rs`: the command line
- `src/help.rs`: the help page, laid out by `clihelp`
- `src/session.rs`: the course of a run: warm-up, trials, report
- `src/stats.rs`, `src/report.rs`: the spread of the trials and what is written
- `src/text.rs`: numbers, trimming, UTF-8 offsets
- `app/`: the cycle counter, the threads and the terminal
