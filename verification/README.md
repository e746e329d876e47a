# programs

A Limen module that lists the software installed on this machine, the local
equivalent of Add/Remove Programs extended to user-local installs, and
provides the `programs.local` capability.

The library under `src/` is written in Verus and verified: the parsers of
each source (dpkg, rpm, flatpak, snap, XDG desktop entries, `~/.local/bin`,
`/opt`, the Windows `Uninstall` keys), the shared record every source fills,
the sorted and de-duplicated listing, the paged and searchable results
screen, the details (as a pop-up over the table or in a tab), the row
actions and the notices they answer with, and the report document handed to a report
provider. Every public function states what it returns in its contract, and
the properties that span calls (a listing is a sorted permutation of what was
read, a row id leads back to its row, a chart adds up to its table, a choice
made in either language means the same thing) are proved as lemmas.

`app/` is the host glue: it reads the machine (commands, directories, the
registry), hands what it read to the library, and carries out the library's
replies (drawing, opening, copying to the clipboard, calling a report
provider).
