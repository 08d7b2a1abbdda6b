# web_crawler

A small, concurrent, polite web crawler. Give it a seed URL and it follows links
breadth-first, extracting each page's title and meta description into a JSON
Lines file. Its rules are a library that Verus proves against contracts; the
program around the library does the input and output.

## The library, `src/`

| Module | What it holds |
| --- | --- |
| `text`, `number` | Texts as sequences of characters; decimal numbers |
| `args`, `args_laws` | The command line: options in any order, their defaults, and what is refused |
| `web_url` | URLs as the `url` crate reads them, and their parts |
| `pairs`, `normalize` | Query pairs in order, and the key under which a page is remembered |
| `pattern`, `directive`, `robots` | `robots.txt`: path patterns, lines, groups, and what they permit |
| `robots_cache` | What each origin asks, read once |
| `scope` | Which URLs belong to a crawl |
| `throttle` | The pace of requests to one origin |
| `page` | Title, description and links of an HTML page |
| `fetch` | One fetch: redirects, retries, and what is kept of a reply |
| `crawl` | The state that workers share: known pages, page slots, work left |
| `crawl_laws` | What holds of every crawl, however the workers take turns |

Functions whose name begins with `law_` state what holds of the library as a
whole. Among them:

- Requests to one site are at least its crawl delay apart, and every request
  takes its slot before it is sent.
- Of the rules that match a URL the longest wins, and on a tie the one that
  allows; the order of the rules does not matter.
- Two web addresses share a key exactly if they differ only in the fragment, in
  slashes at the end of the path, and in how the query spells and orders its
  parameters.
- Every redirect is checked against the scope and `robots.txt`, and no more than
  five are followed.
- The page limit is exact, no more pages are written than it allows, no page is
  queued twice, and every task keeps to the scope and the depth limit.
- The queue is closed when the last task is done with, and not before.

What the library takes from other crates without proof stands in functions
marked `external_body`, each with a comment that says what is claimed of it: the
parsing of URLs and queries (`url`), of HTML (`scraper`), and of two kinds of
text by the standard library.

## The program, `app/`

Workers on `tokio` take tasks from a queue, send requests with `reqwest`, and
hand what comes back to the library, which says what to do next. A writer turns
items into lines of JSON with `serde_json`.

| Flag | Default | Description |
| --- | --- | --- |
| `--max-pages <N>` | `100` | Hard limit on pages fetched |
| `--concurrency <N>` | `10` | Number of workers |
| `--max-depth <N>` | `3` | Maximum link depth from the seed |
| `--timeout <SECS>` | `15` | Per-request timeout |
| `--retries <N>` | `2` | Retries for network errors, 429 and 5xx |
| `--output <FILE>` | `scraped.jsonl` | Output file |
| `--append` | off | Append to the output file instead of overwriting |
| `--user-agent <UA>` | `RustCrawler/0.1` | User-Agent header, also used for robots matching |
| `--all-hosts` | off | Follow links to other hosts |
| `--ignore-robots` | off | Do not fetch or enforce `robots.txt` |
| `-h`, `--help` | | Show usage |

Please only crawl sites you have permission to crawl, and keep the default
`robots.txt` handling on.
