# lightorrent

A lightweight BitTorrent daemon with a qBittorrent-compatible web API, meant as a download client
for Sonarr, Radarr and the like. Its rules are written in Verus and proved; the program around them
is ordinary Rust.

- `src/` is the verified library. It decides everything that does not need a network, a disk, a
  clock or floating-point numbers. One thing it asks for: which address a text such as `10.0.0.1`
  or `::1` stands for is told by a function that the daemon hands it.
  - `api`, `session`, `limiter`, `password`: who is let in, and what a login is answered
  - `add`, `url`, `ip`, `path`: which torrents may be added, from where and to where
  - `meta`, `names`, `hex`: what a `.torrent` file says, and under which name it is saved
  - `engine`, `torrent`, `bitfield`: the torrents being managed, and what alerts and statistics
    make of them
  - `resume`, `store`: what is kept across restarts, and how a torrent is taken up again
  - `views`, `config`: what is shown, and the settings
  - `table`, `text`: association tables and text
- `app/` is the daemon: sockets, files, the database, the download engine, the reading of
  addresses, and everything that computes with floating-point numbers.
- `tests/` runs the library.

Times are handed to the library as nanoseconds of a monotonic clock, or as seconds since the epoch
where they are shown or kept. Speeds and ratios stay whole numbers inside the library: a speed is a
number of bytes and the nanoseconds they took, and a ratio limit is the bits of its floating-point
form.

What the library takes on trust are calls into the standard library and into `argon2`,
`password-hash`, `uuid` and `magpie-bt`; each is wrapped in a function whose comment says what is
claimed of it.
