# sudo-pop

The password prompt for privileged actions: a polkit authentication agent
with a sudo router in front of it, so that `sudo pacman -Syu` (sent on to
`run0`), `sudo -E make` (kept on sudo, with this window as its askpass) and a
desktop's disk mount all end at the same window -- one that says which
command is asking.

## Layout

- `src/` -- the library, verified with Verus. Everything the program decides
  is here, with its contract:
  - `pam`, `attempts`, `fingerprint`: reading a PAM stack through its
    includes, faillock settings and tallies, the failure budget and what the
    window says about it;
  - `sudo_args`, `wrapper`, `paths`: where a `sudo <args>` goes;
  - `invocation`: the command line and the purpose line the window leads
    with;
  - `agent`: the bus side's checks, the cancels owed to queued requests, and
    the caller's timeout as systemd writes it;
  - `helper`, `prompt`: the helper protocol line by line, the retry loop's
    decisions, exit codes, and the password typed ahead of its prompt;
  - `gui`: what each message from the helper does to the window;
  - `theme`, `font`: the theme files, and what is asked of fontconfig;
  - `init`: the blocks `--init` writes into shared files and takes back out;
  - `secret`: the password buffer;
  - `text`, `chars`: string reading shared by the rest.
- `app/` -- the process around it: the D-Bus agent, the egui window, files,
  signals, child processes and process hardening.
- `tests/` -- the library's tests, run against the built crate.
