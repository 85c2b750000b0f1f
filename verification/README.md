# Enigma2 Player

A lightweight GTK4/libmpv desktop player for Enigma2 receivers. It loads
bouquets and EPG data from the receiver's web API and shows the channel list
and the current EPG in overlays on top of the video.

The receiver URL is kept in `~/.config/enigma2-player/settings.json`; a
one-off URL can be given with `--box-url http://enigma2.local`.

## Layout

- `src/` is the library, written in Verus. Its functions carry contracts
  and are proved against them, with these exceptions:
  - a few small functions are trusted, not proved: each makes one call into
    std or an outside crate and states what that call gives
    (`text::push_char`, `epg_text::char_from_u32`,
    `urls::encode_query_value`, `json::parse_json` and `json::from_serde`,
    `channel_list::to_lowercase`, `epg_order::seconds_since_epoch`,
    `store::join_path`, and in `api` the mutex and clock calls and `fetch`,
    which calls the injected HTTP getter; a client is made only with a
    getter whose precondition admits every URL);
  - `Enigma2Client::set_base_url` and `Enigma2Client::clear_cache` have no
    contract: their effect is on the state that all clones of a client
    share behind a mutex. What they decide is proved in
    `ClientState::for_base_url` and `ClientState::cleared`, and what a
    request does next in `ClientState::services_step` and
    `ClientState::epg_step`.
  - `enigma2/` talks to the receiver: URLs (`urls`), the JSON records of the
    API (`json`), bouquets, channels and EPG events (`model`), EPG display
    text with its HTML entities (`epg_text`) and the caching client (`api`).
  - `ui/` holds the decisions of the overlays: the channel list and its
    filter, the EPG list from the current programme on, panel widths, the
    background loads and dragging the window.
  - `settings/` validates the stored receiver URL and says where the
    settings file lies; `app/` reads the launch options, decides what opens
    at start-up and writes the desktop entry; `common/player/` keeps the
    playback state, the audio track menu and the window resize handles.
  - `text` and `num` are the string and number routines the rest builds on.
- `app/` is the GTK program around the library: windows, widgets, mpv,
  HTTP, files and the environment.
- `tests/` exercises the library.
