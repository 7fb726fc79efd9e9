# agent_tabs

The verified core of an agent-aware vertical tab bar for Zellij. Agents and shells
report a state per pane (`working`, `waiting`, `done`, `error`, `idle`) over a pipe;
the bar draws one rounded box per tab whose fill, border or glyph shows the most
urgent state among the tab's panes.

- `src/` is the library, verified with Verus: colour and style parsing, tmux-style
  format strings, the settings, the per-pane state store and its sync dump, state
  aggregation, tab boxes, the tab bar layout, and the plugin as a state machine
  (`PluginState::update`, `pipe`, `load`, `render`) that returns the actions to take.
- `app/` is the Zellij plugin around it: it converts Zellij's events and settings to
  plain values, performs the returned actions and prints the rendered rows.
- `tests/` exercises the library on concrete values.

Text is handled as sequences of `char`; display widths come from `unicode-width`.
