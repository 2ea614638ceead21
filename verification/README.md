# holo_bot

The verified core of a Discord bot that follows Hololive talents: it keeps an
index of their streams and announces them, posts their tweets, archives
stream chats, relays MChad rooms, sends reminders and birthdays, and answers
its slash commands (live and upcoming streams, memes, emoji statistics).

Layout:

- `src/` is the library, checked by Verus. Each module states what its
  functions return in `requires`/`ensures` contracts over mathematical
  models (`Seq`, `Map`, views of the data types); laws that relate several
  operations are public proof functions (`lemma_*`).
- `tests/` runs the library on concrete values.
- `app/` sends the requests that the library builds (DeepL, Azure, imgflip,
  LiveTL), reads the services' JSON replies into the library's types, and
  runs the posting, reminder, stream and meme loops over the library's
  step functions.
