# spinshare

The decision logic of a video-sharing web site, verified with Verus:

- `src/text.rs`: Unicode-whitespace word splitting, joining with spaces, and
  the lowercase and string-building calls into std.
- `src/order.rs`: the code-point order of strings and sorted word lists.
- `src/services/tag_service.rs`: tag sanitizing, the set of distinct tags,
  and one round of the paged tag rebuild.
- `src/services/upload_service.rs`: stored tag strings, new upload records
  (ids from `nanoid`), finishing and editing uploads with their audit lines,
  and the tags that recommendations go by.
- `src/routes/queue.rs`: approving uploads from the queue.
- `src/models/`: the upload and comment records the rules read.
- `src/context.rs`, `src/home.rs`: template helpers and the front page.

`app/` holds the web server, database queries and template glue around the
library (Rocket, Diesel, Tera); `tests/` runs the library on concrete values.
