# yew_router

Route matching, route parsing and route building for a client-side web router, with
the logic verified by Verus.

A matcher string such as `/users/{id}?tab={tab}#top` is parsed into tokens
(`parser`, against the grammar stated in `grammar`), condensed into matcher tokens
(`optimizer`), and used to decide whether a route string matches and what it captures
(`matcher`, `path_matcher`); `route_matcher` adds the settings (an optional trailing
`/`, complete or incomplete matches, case). Parse failures are explained to the user (`error`).
Values are read from and written to route parts through the `Switch` trait (`switch`,
`nonzero`, `uuid_switch`, `numbers`). A simpler token-by-token matcher (`flat_matcher`), a
regular-expression matcher (`regex_matcher`), the decisions of the routing agent
(`agent`) and of route children (`render`) complete the library.

Properties proved across functions:

* `shape`: every matcher string that parses condenses to tokens in which each capture
  finds a delimiter after it;
* `self_match`: a matcher string made only of fixed text matches exactly itself and
  records nothing;
* `path_matcher`, `flat_matcher`: a successful match records values under the names
  that `capture_names` lists (`lemma_capture_names_are_match_keys`);
* `switch`: reading back the text written for a value gives that value
  (`Switch::lemma_read_back`, `lemma_build_then_switch`); `numbers` does the same for
  integer text and `uuid_switch` for the text of an identifier
  (`lemma_uuid_text_parses`);
* `matcher`: ignoring case, an ASCII literal matches text that differs from it only in
  the case of its letters (`lemma_ascii_case_ignored`).

Layout:

* `src/` – the verified library;
* `tests/` – tests of the library;
* `app/` – the browser side: the history service (`stdweb`), the routing agent, the
  router components (one reading a `Switch` value, one choosing among route children) and
  route links and buttons (`yew`), and serializable copies of the route types (`serde`).
