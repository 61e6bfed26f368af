# spoken_commands

Expands spoken formatting commands in dictated text, and decides how the window
that dictation started in gets the focus back. "hello period world" becomes
"Hello. World".

The library under `src/` is verified with Verus:

- `dictation_commands`: a transcript and its commands to finished text
- `order`: which commands take part, longest phrase first
- `pattern`: finding phrases as whole words and marking them
- `kind`: how a replacement attaches to the text around it
- `render`: spacing and capitals of marked text
- `marks`: why no mark is left in finished text
- `text`: words, white space and letters
- `settings`: the commands
- `focus`: the captured window
- `foreground`: asking for the foreground where the system guards it
- `x11`: focus on X11

What is trusted rather than proved is marked where it stands: the regular
expressions of `regex`, the client message of `x11rb`, and a few functions of
`std` on characters and strings. Each has a comment that says what is claimed of
it.

`app/` talks to the window system through Tauri, `windows` and `x11rb`, and takes
the steps that the library decides on. It keeps the process-wide state: it reads
the environment once, and holds the captured window and the X11 connection.
