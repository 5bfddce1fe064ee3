# restorefiles

Restores files from backup discs. A sorted listing holds one `|`-separated
record per file; its first field names the disc the file is on. The tool
reads the records of one disc at a time, finds where that disc is mounted,
checks that the copy can start, copies each file to its original directory
under a target directory, and ejects the disc.

- `src/` is the verified library (Verus): splitting and searching text
  (`text`), reading one disc's group of records (`scan`), choosing and
  checking the listing (`sortin`), the start checks (`execpress`), finding the
  disc's mount point (`drives`), the decisions of a copy run (`copy`), and the
  window state with one method per event (`state`).
- `app/` is the window, the dialogs, the drives, file reading and the copy
  processes; it hands their results to the library.
