# overmatch

A tank game whose rules are proved. The library under `src/` holds the rules: what damage does to a
crew and to what a tank can still do, how the tracks push the hull over the ground, how the turret and
the gun are laid, when the gun fires, and what the readouts say. Every function states what it returns
or changes, and Verus proves it.

All quantities are IEEE 754 binary32 numbers. The library computes with them in integers
(`binary32`), rounding to nearest, ties to even, so that a step of the simulation gives the same bits
on every machine. In contracts the operators mean the exact result, rounded once. Laws that rounding
blurs, such as the friction ellipse or a speed limit, are stated over the real numbers with the number
of roundings that they may be off by.

| module      | what it holds                                                                 |
|-------------|-------------------------------------------------------------------------------|
| `binary32`  | the number format, its arithmetic, its rounding errors, and the laws that the other modules rest on |
| `bounds`    | bounds over the real numbers that the laws with rounding rest on              |
| `vector`    | vectors of three numbers                                                      |
| `text`      | comparing names and building readouts                                         |
| `hierarchy` | walks from a node to its parents                                              |
| `damage`    | roles, requirements, capabilities, and the consequences of lost hit points    |
| `spec`      | a tank variant's spec sheet                                                   |
| `tank`      | binding the model's nodes, the servos, and when a tank may appear             |
| `driving`   | the driver's intent, the springs, and the traction of the tracks              |
| `shooting`  | the trigger, the reload, and the recoil                                       |
| `sight`     | the gunner's optic and the range dial                                         |
| `camera`    | the orbit camera and the optic's line of sight                                |
| `hud`       | the readouts over tanks and their parts                                       |
| `sandbox`   | the armour sandbox: layers, flying, control of time                           |
| `state`, `world`, `debug` | the pause, the battlefield, and views of the physics            |

`app/` is the game around the library: a Bevy application with Avian physics. It reads the keyboard and
the scene, hands plain values to the library, and writes back what the library decides. Started with
the argument `armor_sandbox` it opens the armour sandbox instead of the game. `Cargo.toml`
names only Bevy's core; to build the game, Bevy's scene, interface, window and renderer features have
to be switched on there, and `avian3d` added.

The entities of the scene are known to the library by their 64-bit identifiers. Sines, cosines,
tangents and the length of a two-dimensional vector are taken by the caller and passed in, because
their last digit differs between machines; so are numbers written out with a given precision.
