# proper

Replaces `${VAR}` placeholders in a property file with values taken from
keyfiles (`VAR=VALUE` lines, where the key ends at the first `=` and `#`
starts a comment) or from environment
variables, and writes the result to another file.

```
proper [OPTIONS] <property-file> <result-file>

    -k --keys FILE(s)   keyfile(s) with variable substitutions, can occur
                        multiple times
    -p --props-first    properties takes precedence over environment variables
    -s --shadow-keys    later keyfiles override keys of earlier ones instead
                        of failing
    -? --help           print the help menu
    -V --version        print the version number
```

## Layout

- `src/` is the library, written in Verus and verified:
  - `placeholder.rs`: the placeholder syntax and what a text becomes when
    each of its placeholders is replaced by a value, as written;
  - `substitute.rs`: resolution of keys against keyfiles and the
    environment, substitution of a line and of a whole file, and the record
    of used keys;
  - `keyfile.rs`, `keys.rs`: keyfile lines, the dictionary of keys and the
    merge of several keyfiles;
  - `report.rs`, `order.rs`: the summary shown at the end, with sorted keys;
  - `options.rs`, `cli.rs`: command-line options (through getopts) and what
    the parsed command line decides;
  - `laws.rs`: properties of the tool as a whole, proved;
  - `text.rs`, `assoc.rs`: characters, whitespace, and association lists.
- `app/` is the program: reading files and the environment, printing, and
  the exit codes.
- `tests/` runs the library on concrete values, and checks its grammars
  against the regular expressions they stand for.
