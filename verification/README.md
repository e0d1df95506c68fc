# TagTiger

TagTiger tags MP4 and M4V movies: it looks titles up at TMDB and writes what it finds (title,
release date, descriptions, genres, rating, kind of video, definition, studio, the people, a cover
and the atoms of episodes) into the file itself, as iTunes does. A file can be laid out for streaming
on the way.

- `src/` is the library, in Verus. It holds everything that is decided or computed: the atoms of a
  tag and how they read back, the rewriting of a file's layout and its chunk offsets, the requests to
  TMDB and what is made of its replies, file names, covers, licenses, and the state of the editor with
  its undo history. Every function says in its contract what it returns, and laws that span several
  functions stand beside them as proof functions with names that begin with `law_`.
- `app/` is the program around it: the command line, the files, the network, the clipboard and the
  desktop.
- `tests/` runs the library on concrete values.

What the library takes from other crates stands behind small functions marked
`#[verifier::external_body]`: tags are kept in mp4ameta's `Tag`, pictures go through image, dates
through chrono, file names through regex, and keys through hmac and sha2. The comment above each says
what is believed of the function it calls.

```sh
tagtiger search  "The Matrix (1999).mp4"            # parse the name, list TMDB matches
tagtiger search  "Breaking Bad" "Pilot"             # find episodes by their title
tagtiger inspect movie.m4v                          # show existing tags
tagtiger tag     "The Matrix (1999).mp4" --id 603   # fetch and write tags and the poster
tagtiger tag     movie.m4v --rating PG-13           # set the rating alone
tagtiger edit    movie.m4v                          # edit interactively; `edit` may be left out
```

Asking TMDB takes a credential in `TMDB_BEARER_TOKEN` (a read access token) or `TMDB_API_KEY`.
