# civmods

The verified core of a Civilization VII mod manager, written in Verus.

`src/` is the library. Its functions carry contracts that Verus proves,
except a few small wrappers around quick-xml, sha2 and std string functions
(marked `#[verifier::external_body]`), whose contracts are trusted: each
states what the called function does, and the rest is proved from them.

The modules:

- `folder_name`: whether a mod's `UpdateArt` name can name a folder in the
  game's DLC folder, and the exact message when it cannot.
- `xml`: repairing `.modinfo` XML (end tags that do not match, text that is
  not validly escaped) and finding the `<UpdateArt><Item>` name. The reading
  is quick-xml's; what is done with each event it yields is proved.
- `dlc_folder`: Steam's `libraryfolders.vdf`, the candidate game folders on
  each operating system, and which DLC folder is used.
- `art`: which files of an unpacked mod form its art payload, whether and
  under which name it is installed, and the copies that install it.
- `mods`: the `.modinfo` file of a mod folder, the SHA-256 fingerprint of a
  mod's files (sha2; each file's relative path and content), the mods list,
  and which mods are unlocked.
- `archive`: which extractor an archive needs and what an installation reports.
- `text`: the string operations the rest is specified with.

Facts about the disk (what a folder walk yields, whether a folder exists,
what a file holds) are arguments of the library's functions. `app/` is the
command-line program that gathers them: it walks folders, reads and copies
files, unpacks archives with zip, sevenz-rust, unrar, flate2 and tar, and
parses `.modinfo` files into the library's types with serde.

`tests/` runs the library on concrete inputs.
